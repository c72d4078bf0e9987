//! What holds of folding as a whole, on examples.
use dm_constants::ast::{BinaryOp, Expression, Follow, PathOp, Prefab, Term, TypePath, UnaryOp};
use dm_constants::constant::{ConstFn, Constant};
use dm_constants::constants::{constant_ident_lookup, evaluate_all, ConstLookup, ConstantFolder};
use dm_constants::error::{DMError, ErrorKind, Failure, Location};
use dm_constants::objtree::{FullValue, ObjectTree, Parsed, Type, TypeVar};
use std::fmt::Debug;
use std::rc::Rc;

/// Compares what two values are made of.
fn assert_same<T: Debug>(left: &T, right: &T) {
    assert_eq!(format!("{:?}", left), format!("{:?}", right));
}

fn at(line: u32) -> Location {
    Location { file: 0, line, column: 0 }
}

fn base(term: Term) -> Expression {
    Expression::Base { unary: vec![], term, follow: vec![] }
}

fn num(value: i32) -> Expression {
    base(Term::Int(value))
}

fn ident(name: &str) -> Expression {
    base(Term::Ident(name.to_owned()))
}

fn sum(lhs: Expression, rhs: Expression) -> Expression {
    Expression::BinaryOp { op: BinaryOp::Add, lhs: Box::new(lhs), rhs: Box::new(rhs) }
}

fn call(name: &str, args: Vec<Expression>) -> Expression {
    base(Term::Call(name.to_owned(), args))
}

fn path(segments: &[&str]) -> TypePath {
    segments.iter().map(|segment| (PathOp::Slash, segment.to_string())).collect()
}

fn var(line: u32, value: Option<Expression>) -> TypeVar {
    TypeVar {
        location: at(line),
        type_path: vec![],
        value: None,
        full_value: value.map(|value| {
            Rc::new(FullValue { source: String::new(), parsed: Parsed::Expression(value) })
        }),
        is_static: false,
        const_evaluable: true,
        being_evaluated: false,
    }
}

fn ty(parent: Option<usize>, vars: Vec<(&str, TypeVar)>) -> Type {
    Type { parent, vars: vars.into_iter().map(|(name, var)| (name.to_owned(), var)).collect() }
}

fn tree(graph: Vec<Type>) -> ObjectTree {
    let tree = ObjectTree { graph, types: vec![("/datum/globals".to_owned(), 0)], notes: vec![] };
    assert!(tree.is_well_formed());
    tree
}

fn value_of<'a>(tree: &'a ObjectTree, ty: usize, i: usize) -> Option<&'a Constant> {
    tree.graph[ty].vars[i].1.value.as_ref()
}

fn found(tree: &mut ObjectTree, ty: usize, name: &str) -> Constant {
    match constant_ident_lookup(tree, ty, name, false) {
        Ok(ConstLookup::Found(_, value)) => value,
        other => panic!("{:?}", other),
    }
}

fn fold(tree: &mut ObjectTree, expression: Expression) -> Result<Constant, Failure> {
    ConstantFolder { location: at(99), ty: 0 }.expr(tree, &expression, None)
}

fn failure(line: u32, kind: ErrorKind) -> Failure {
    Failure::Error(DMError::new(at(line), kind))
}

#[test]
fn folding_is_orderly() {
    let mut known = var(1, Some(num(1)));
    known.value = Some(Constant::Int(10));
    let mut tree = tree(vec![ty(
        None,
        vec![
            ("known", known),
            ("fresh", var(2, Some(num(2)))),
            ("broken", var(3, Some(call("sin", vec![])))),
            ("behind", var(4, Some(ident("broken")))),
        ],
    )]);
    let expression = sum(sum(ident("known"), ident("fresh")), ident("behind"));
    assert_same(
        &fold(&mut tree, expression),
        &Err(failure(99, ErrorKind::FunctionCall("sin".to_owned())))
    );
    assert_same(&value_of(&tree, 0, 0), &Some(&Constant::Int(10)));
    assert_same(&value_of(&tree, 0, 1), &Some(&Constant::Int(2)));
    assert_same(&value_of(&tree, 0, 2), &None);
    assert_same(&value_of(&tree, 0, 3), &None);
    let open: Vec<bool> = tree.graph[0].vars.iter().map(|(_, v)| v.being_evaluated).collect();
    assert_eq!(open, vec![false, false, true, true]);
}

#[test]
fn lookup_reports_at_the_variable() {
    let mut tree = tree(vec![ty(
        None,
        vec![("a", var(4, Some(ident("b")))), ("b", var(5, Some(call("sin", vec![]))))],
    )]);
    assert_same(
        &constant_ident_lookup(&mut tree, 0, "a", false),
        &Err(failure(4, ErrorKind::FunctionCall("sin".to_owned())))
    );
}

#[test]
fn known_value_is_taken() {
    let mut known = var(1, Some(call("sin", vec![])));
    known.value = Some(Constant::Int(10));
    known.const_evaluable = false;
    known.is_static = true;
    let mut tree = tree(vec![ty(None, vec![("known", known)])]);
    for must_be_static in [false, true] {
        assert_same(
            &constant_ident_lookup(&mut tree, 0, "known", must_be_static),
            &Ok(ConstLookup::Found(vec![], Constant::Int(10)))
        );
    }
    assert!(tree.notes.is_empty());
}

#[test]
fn lookup_is_stable() {
    let mut tree = tree(vec![ty(
        None,
        vec![("a", var(1, Some(sum(ident("b"), num(1))))), ("b", var(2, Some(num(2))))],
    )]);
    assert_same(&found(&mut tree, 0, "a"), &Constant::Int(3));
    let notes = tree.notes.len();
    assert_same(&found(&mut tree, 0, "b"), &Constant::Int(2));
    assert_same(&found(&mut tree, 0, "a"), &Constant::Int(3));
    assert_eq!(tree.notes.len(), notes);
}

#[test]
fn all_constants_get_values_once() {
    let mut other = var(3, Some(call("sin", vec![])));
    other.const_evaluable = false;
    let mut tree = tree(vec![
        ty(None, vec![("a", var(1, Some(ident("b")))), ("b", var(2, Some(num(2))))]),
        ty(Some(0), vec![("c", other), ("d", var(4, None)), ("e", var(5, Some(ident("a"))))]),
    ]);
    assert_same(&evaluate_all(&mut tree), &Ok(()));
    assert_same(&value_of(&tree, 0, 0), &Some(&Constant::Int(2)));
    assert_same(&value_of(&tree, 0, 1), &Some(&Constant::Int(2)));
    assert_same(&value_of(&tree, 1, 0), &None);
    assert_same(&value_of(&tree, 1, 1), &Some(&Constant::Null(None)));
    assert_same(&value_of(&tree, 1, 2), &Some(&Constant::Int(2)));
    let notes = tree.notes.len();
    assert_same(&evaluate_all(&mut tree), &Ok(()));
    assert_eq!(tree.notes.len(), notes);
    assert_same(&value_of(&tree, 1, 2), &Some(&Constant::Int(2)));
}

#[test]
fn self_reference() {
    let mut tree = tree(vec![ty(None, vec![("a", var(6, Some(ident("a"))))])]);
    assert_same(
        &evaluate_all(&mut tree),
        &Err(DMError::new(at(6), ErrorKind::RecursiveReference("a".to_owned())))
    );
    assert!(tree.graph[0].vars[0].1.being_evaluated);
}

#[test]
fn reference_in_a_circle() {
    let mut tree = tree(vec![ty(
        None,
        vec![
            ("a", var(1, Some(ident("b")))),
            ("b", var(2, Some(sum(num(1), ident("c"))))),
            ("c", var(3, Some(ident("a")))),
        ],
    )]);
    assert_same(
        &evaluate_all(&mut tree),
        &Err(DMError::new(at(1), ErrorKind::RecursiveReference("a".to_owned())))
    );
}

#[test]
fn variable_being_evaluated_is_refused() {
    let mut open = var(8, Some(num(1)));
    open.being_evaluated = true;
    let mut tree = tree(vec![ty(None, vec![("a", open)])]);
    assert_same(
        &constant_ident_lookup(&mut tree, 0, "a", false),
        &Err(failure(8, ErrorKind::RecursiveReference("a".to_owned())))
    );
    assert_same(&value_of(&tree, 0, 0), &None);
}

#[test]
fn failed_variable_stays_open() {
    let mut tree = tree(vec![ty(None, vec![("a", var(8, Some(call("sin", vec![]))))])]);
    assert_same(
        &constant_ident_lookup(&mut tree, 0, "a", false),
        &Err(failure(8, ErrorKind::FunctionCall("sin".to_owned())))
    );
    assert_same(
        &constant_ident_lookup(&mut tree, 0, "a", false),
        &Err(failure(8, ErrorKind::RecursiveReference("a".to_owned())))
    );
}

#[test]
fn non_const_and_non_static_are_refused() {
    let mut loose = var(1, Some(num(1)));
    loose.const_evaluable = false;
    let mut tree = tree(vec![ty(None, vec![("loose", loose), ("own", var(2, Some(num(2))))])]);
    assert_same(
        &constant_ident_lookup(&mut tree, 0, "loose", false),
        &Err(failure(1, ErrorKind::NonConstVariable("loose".to_owned())))
    );
    assert_same(
        &constant_ident_lookup(&mut tree, 0, "own", true),
        &Err(failure(2, ErrorKind::NonStaticVariable("own".to_owned())))
    );
    assert_same(&found(&mut tree, 0, "own"), &Constant::Int(2));
    assert_same(
        &constant_ident_lookup(&mut tree, 0, "own", true),
        &Err(failure(2, ErrorKind::NonStaticVariable("own".to_owned())))
    );
}

#[test]
fn fields_are_static() {
    let mut shared = var(1, Some(num(5)));
    shared.is_static = true;
    let mut tree = tree(vec![ty(None, vec![("shared", shared), ("own", var(2, Some(num(6))))])]);
    let folder = ConstantFolder { location: at(99), ty: 0 };
    let global = || Constant::Null(Some(path(&["datum", "globals"])));
    assert_same(
        &folder.follow(&mut tree, global(), &Follow::Field("shared".to_owned())),
        &Ok(Constant::Int(5))
    );
    assert_same(
        &folder.follow(&mut tree, global(), &Follow::Field("own".to_owned())),
        &Err(failure(99, ErrorKind::NonStaticVariable("own".to_owned())))
    );
}

#[test]
fn uninitialised_variable_is_null() {
    let mut declared = var(1, None);
    declared.type_path = path(&["obj"]);
    declared.being_evaluated = true;
    let mut tree = tree(vec![ty(None, vec![("a", declared), ("b", var(2, None))])]);
    assert_same(&found(&mut tree, 0, "a"), &Constant::Null(Some(path(&["obj"]))));
    assert_same(&found(&mut tree, 0, "b"), &Constant::Null(None));
    assert!(!tree.graph[0].vars[0].1.being_evaluated);
    assert_same(&value_of(&tree, 0, 0), &Some(&Constant::Null(Some(path(&["obj"])))));
}

#[test]
fn nearest_declaration_is_taken() {
    let mut tree = tree(vec![
        ty(None, vec![("a", var(1, Some(num(1)))), ("b", var(2, Some(num(2))))]),
        ty(Some(0), vec![("a", var(3, Some(num(3))))]),
        ty(Some(1), vec![]),
    ]);
    let folder = ConstantFolder { location: at(99), ty: 2 };
    assert_same(&folder.ident(&mut tree, "a", None, false), &Ok(Constant::Int(3)));
    assert_same(&folder.ident(&mut tree, "b", None, false), &Ok(Constant::Int(2)));
    assert_same(&folder.recursive_lookup(&mut tree, 0, "a", false), &Ok(Constant::Int(1)));
    assert_same(
        &folder.ident(&mut tree, "c", None, false),
        &Err(failure(99, ErrorKind::UnknownVariable("c".to_owned())))
    );
}

#[test]
fn inherited_initialiser_sees_its_own_type() {
    let mut tree = tree(vec![
        ty(None, vec![("a", var(1, Some(ident("b")))), ("b", var(2, Some(num(2))))]),
        ty(Some(0), vec![("b", var(3, Some(num(30))))]),
    ]);
    let folder = ConstantFolder { location: at(99), ty: 1 };
    assert_same(&folder.ident(&mut tree, "a", None, false), &Ok(Constant::Int(2)));
    assert_same(&folder.ident(&mut tree, "b", None, false), &Ok(Constant::Int(30)));
}

#[test]
fn colours_have_two_digits_for_each_component() {
    let mut tree = tree(vec![ty(None, vec![])]);
    for count in 3..5 {
        let args = (0..count).map(|i| num(i * 100)).collect();
        match fold(&mut tree, call("rgb", args)) {
            Ok(Constant::String(text)) => {
                assert_eq!(text.len(), 1 + 2 * count as usize);
                assert!(text.starts_with("#0064c8"));
            }
            other => panic!("{:?}", other),
        }
    }
}

#[test]
fn shapes_are_kept() {
    let mut tree = tree(vec![ty(None, vec![])]);
    assert_same(
        &fold(&mut tree, call("newlist", vec![num(1), num(2), num(3)])),
        &Ok(Constant::Call(
            ConstFn::Newlist,
            vec![Constant::Int(1), Constant::Int(2), Constant::Int(3)]
        ))
    );
    match fold(&mut tree, base(Term::List(vec![(num(1), Some(num(2))), (num(3), None)]))) {
        Ok(Constant::List(items)) => {
            assert_eq!(items.len(), 2);
            assert!(items[0].1.is_some());
            assert!(items[1].1.is_none());
        }
        other => panic!("{:?}", other),
    }
    let folder = ConstantFolder { location: at(99), ty: 0 };
    let source = Prefab {
        path: path(&["obj"]),
        vars: vec![
            ("z".to_owned(), num(1)),
            ("a".to_owned(), num(2)),
            ("m".to_owned(), num(3)),
        ],
    };
    let folded = folder.prefab(&mut tree, &source).unwrap();
    assert_same(&folded.path, &path(&["obj"]));
    let names: Vec<&str> = folded.vars.iter().map(|(name, _)| name.as_str()).collect();
    assert_eq!(names, vec!["z", "a", "m"]);
}

#[test]
fn operators_applied_twice() {
    let folder = ConstantFolder { location: at(99), ty: 0 };
    let twice = |op: UnaryOp, value: i32| {
        folder.unary(folder.unary(Constant::Int(value), op).unwrap(), op)
    };
    for value in [i32::MAX, 17, 1, 0, -1, -17, i32::MIN + 1] {
        assert_same(&twice(UnaryOp::Neg, value), &Ok(Constant::Int(value)));
        assert_same(&twice(UnaryOp::BitNot, value), &Ok(Constant::Int(value)));
        let truth = if value == 0 { 0 } else { 1 };
        assert_same(&twice(UnaryOp::Not, value), &Ok(Constant::Int(truth)));
    }
    assert_same(&twice(UnaryOp::BitNot, i32::MIN), &Ok(Constant::Int(i32::MIN)));
    assert_same(
        &folder.unary(Constant::Int(i32::MIN), UnaryOp::Neg),
        &Err(Failure::Arithmetic)
    );
}

#[test]
fn division_rounds_towards_zero() {
    let folder = ConstantFolder { location: at(99), ty: 0 };
    for (lhs, rhs, quotient) in [(9, 4, 2), (-9, 4, -2), (9, -4, -2), (-9, -4, 2), (0, 5, 0)] {
        assert_same(
            &folder.binary(Constant::Int(lhs), Constant::Int(rhs), BinaryOp::Div),
            &Ok(Constant::Int(quotient))
        );
    }
}

#[test]
fn parentheses_and_null() {
    let mut tree = tree(vec![ty(
        None,
        vec![("a", var(1, Some(num(4)))), ("null", var(2, Some(num(5))))],
    )]);
    let paren = |inner: Expression| base(Term::Expr(Box::new(inner)));
    assert_same(&fold(&mut tree, paren(paren(ident("a")))), &Ok(Constant::Int(4)));
    assert_same(&fold(&mut tree, ident("null")), &Ok(Constant::Null(None)));
    assert_same(
        &fold(&mut tree, paren(call("sin", vec![]))),
        &Err(failure(99, ErrorKind::FunctionCall("sin".to_owned())))
    );
}

#[test]
fn refusals_of_non_static_variables_come_in_order() {
    let mut open = var(1, Some(num(1)));
    open.being_evaluated = true;
    let mut loose = var(2, Some(num(2)));
    loose.const_evaluable = false;
    let mut known = var(3, Some(num(3)));
    known.value = Some(Constant::Int(3));
    known.const_evaluable = false;
    let mut tree = tree(vec![ty(
        None,
        vec![("open", open), ("loose", loose), ("known", known), ("unset", var(4, None))],
    )]);
    let mut refusal = |name: &str| constant_ident_lookup(&mut tree, 0, name, true).unwrap_err();
    assert_same(&refusal("open"), &failure(1, ErrorKind::RecursiveReference("open".to_owned())));
    assert_same(&refusal("loose"), &failure(2, ErrorKind::NonConstVariable("loose".to_owned())));
    assert_same(&refusal("known"), &failure(3, ErrorKind::NonStaticVariable("known".to_owned())));
    assert_same(&refusal("unset"), &failure(4, ErrorKind::NonStaticVariable("unset".to_owned())));
    assert_same(&value_of(&tree, 0, 3), &None);
}

#[test]
fn failure_leaves_one_without_value() {
    let mut loose = var(2, Some(num(2)));
    loose.const_evaluable = false;
    let mut kept = var(5, Some(num(5)));
    kept.value = Some(Constant::Int(50));
    let mut tree = tree(vec![
        ty(None, vec![("a", var(1, Some(num(1)))), ("loose", loose)]),
        ty(
            Some(0),
            vec![
                ("b", var(3, Some(sum(ident("unset"), ident("a"))))),
                ("unset", var(4, None)),
                ("kept", kept),
            ],
        ),
    ]);
    assert!(evaluate_all(&mut tree).is_err());
    assert_same(&value_of(&tree, 0, 0), &Some(&Constant::Int(1)));
    assert_same(&value_of(&tree, 0, 1), &None);
    assert_same(&value_of(&tree, 1, 0), &None);
    assert_same(&value_of(&tree, 1, 1), &Some(&Constant::Null(None)));
    assert_same(&value_of(&tree, 1, 2), &Some(&Constant::Int(50)));
    let marked: Vec<bool> = tree.graph[1].vars.iter().map(|(_, v)| v.being_evaluated).collect();
    assert_eq!(marked, vec![true, false, false]);
}

#[test]
fn evaluated_tree_is_left_alone() {
    let build = || {
        tree(vec![ty(
            None,
            vec![("a", var(1, Some(ident("b")))), ("b", var(2, Some(num(2)))), ("c", var(3, None))],
        )])
    };
    let (mut once, mut twice) = (build(), build());
    assert_same(&evaluate_all(&mut once), &Ok(()));
    assert_same(&evaluate_all(&mut twice), &Ok(()));
    assert_same(&evaluate_all(&mut twice), &Ok(()));
    assert_same(&once, &twice);
    assert!(once.graph[0].vars.iter().all(|(_, v)| !v.being_evaluated));
}
