//! Constants, numbers and errors as text.
use dm_constants::ast::{BinaryOp, Follow, NewType, PathOp, Prefab, TypePath, UnaryOp};
use dm_constants::constant::{ConstFn, Constant, FloatValue, TypedConstant};
use dm_constants::error::ErrorKind;
use dm_constants::objtree::Note;
use dm_constants::render::{Fragment, Rendered};
use dm_constants::text::{append_decimal, append_hex_pair, append_index};
use std::fmt::Debug;
use std::rc::Rc;

/// Compares what two values are made of.
fn assert_same<T: Debug>(left: &T, right: &T) {
    assert_eq!(format!("{:?}", left), format!("{:?}", right));
}

fn shown(constant: &Constant) -> String {
    constant.display().to_text().unwrap()
}

fn path(segments: &[&str]) -> TypePath {
    segments.iter().map(|segment| (PathOp::Slash, segment.to_string())).collect()
}

fn string(value: &str) -> Constant {
    Constant::String(value.to_owned())
}

fn float(value: f32) -> FloatValue {
    FloatValue::Literal(value.to_bits())
}

#[test]
fn simple_constants() {
    assert_eq!(shown(&Constant::Null(None)), "null");
    assert_eq!(shown(&Constant::Null(Some(path(&["obj"])))), "null");
    assert_eq!(shown(&string("a \"b\"")), "\"a \"b\"\"");
    assert_eq!(shown(&Constant::Resource("icons/a.dmi".to_owned())), "'icons/a.dmi'");
    assert_eq!(shown(&Constant::Int(0)), "0");
    assert_eq!(shown(&Constant::Int(-120)), "-120");
    assert_eq!(shown(&Constant::Int(i32::MAX)), "2147483647");
    assert_eq!(shown(&Constant::Int(i32::MIN)), "-2147483648");
}

#[test]
fn lists_as_text() {
    assert_eq!(shown(&Constant::List(vec![])), "list()");
    let items = vec![
        (Constant::Int(1), None),
        (string("a"), Some(Constant::Int(2))),
        (Constant::Null(None), Some(Constant::List(vec![(Constant::Int(3), None)]))),
    ];
    assert_eq!(shown(&Constant::List(items)), "list(1, \"a\" = 2, null = list(3))");
}

#[test]
fn calls_as_text() {
    assert_eq!(
        shown(&Constant::Call(ConstFn::Icon, vec![string("a"), Constant::Int(1)])),
        "icon(\"a\", 1)"
    );
    assert_eq!(shown(&Constant::Call(ConstFn::Matrix, vec![])), "matrix()");
    assert_eq!(shown(&Constant::Call(ConstFn::Newlist, vec![Constant::Int(1)])), "newlist(1)");
    assert_eq!(ConstFn::Icon.name(), "icon");
    assert_eq!(ConstFn::Matrix.name(), "matrix");
    assert_eq!(ConstFn::Newlist.name(), "newlist");
}

#[test]
fn prefabs_as_text() {
    let bare = Prefab { path: path(&["obj", "item"]), vars: vec![] };
    assert_eq!(shown(&Constant::Prefab(bare)), "/obj/item");
    let relative = Prefab {
        path: vec![
            (PathOp::Dot, "a".to_owned()),
            (PathOp::Colon, "b".to_owned()),
            (PathOp::Slash, "c".to_owned()),
        ],
        vars: vec![
            ("x".to_owned(), Constant::Int(1)),
            ("y".to_owned(), string("z")),
        ],
    };
    assert_eq!(shown(&Constant::Prefab(relative)), ".a:b/c {x = 1; y = \"z\"}");
}

#[test]
fn new_expressions_as_text() {
    let new = |type_: NewType<Constant>, args: Option<Vec<Constant>>| {
        shown(&Constant::New { type_, args })
    };
    assert_eq!(new(NewType::Implicit, None), "new");
    assert_eq!(new(NewType::Implicit, Some(vec![])), "new()");
    let prefab = Prefab { path: path(&["obj"]), vars: vec![] };
    assert_eq!(
        new(NewType::Prefab(prefab), Some(vec![Constant::Int(1), Constant::Int(2)])),
        "new /obj(1, 2)"
    );
    assert_eq!(new(NewType::Ident("x".to_owned()), None), "new x");
}

#[test]
fn single_precision_numbers_are_left_open() {
    let items = vec![(Constant::Int(1), None), (Constant::Float(float(0.5)), None)];
    let rendered = Constant::List(items).display();
    assert_same(
        &rendered,
        &Rendered {
            fragments: vec![
                Fragment::Text("list(1, ".to_owned()),
                Fragment::Float(float(0.5)),
                Fragment::Text(")".to_owned()),
            ],
        }
    );
    assert_eq!(rendered.to_text(), None);
}

#[test]
fn texts_are_appended_to() {
    let mut rendered = Rendered::new();
    assert_eq!(rendered.to_text(), Some(String::new()));
    rendered.push_str("a");
    Constant::Int(7).fmt(&mut rendered);
    assert_eq!(rendered.to_text(), Some("a7".to_owned()));
    rendered.push_float(FloatValue::OfInt(1));
    rendered.push_str("b");
    assert_eq!(rendered.fragments.len(), 3);
    assert_eq!(rendered.to_text(), None);
}

#[test]
fn expected_type_does_not_show() {
    let typed = TypedConstant { type_hint: Some(path(&["obj"])), constant: Constant::Int(4) };
    assert_same(&typed.display(), &Constant::Int(4).display());
    assert_eq!(typed.display().to_text(), Some("4".to_owned()));
}

#[test]
fn default_constant_is_null() {
    assert_same(&Constant::default(), &Constant::Null(None));
}

#[test]
fn copies_are_equal() {
    let constant = Constant::List(vec![
        (
            Constant::New {
                type_: NewType::Prefab(Prefab {
                    path: path(&["obj"]),
                    vars: vec![("a".to_owned(), Constant::Null(Some(path(&["mob"]))))],
                }),
                args: Some(vec![Constant::Float(FloatValue::Neg(Rc::new(float(1.0))))]),
            },
            Some(Constant::Call(ConstFn::Matrix, vec![Constant::Resource("r".to_owned())])),
        ),
        (
            Constant::Float(FloatValue::Add(
                Rc::new(FloatValue::Sub(Rc::new(float(1.0)), Rc::new(float(2.0)))),
                Rc::new(FloatValue::Mul(
                    Rc::new(FloatValue::OfInt(3)),
                    Rc::new(FloatValue::Div(Rc::new(float(4.0)), Rc::new(float(5.0)))),
                )),
            )),
            None,
        ),
        (Constant::New { type_: NewType::Ident("x".to_owned()), args: None }, None),
        (Constant::New { type_: NewType::Implicit, args: None }, None),
    ]);
    assert_same(&constant.clone(), &constant);
}

#[test]
fn numbers_as_text() {
    let mut text = "n=".to_owned();
    append_decimal(&mut text, -1050);
    append_decimal(&mut text, 9);
    append_hex_pair(&mut text, 0);
    append_hex_pair(&mut text, 10);
    append_hex_pair(&mut text, 255);
    append_index(&mut text, 120);
    assert_eq!(text, "n=-10509000aff120");
}

#[test]
fn headlines() {
    let cases = vec![
        (ErrorKind::RecursiveReference("a".to_owned()), "recursive constant reference: a"),
        (ErrorKind::NonConstVariable("a".to_owned()), "non-const variable: a"),
        (ErrorKind::NonStaticVariable("a".to_owned()), "non-static variable: a"),
        (ErrorKind::NotAnExpression, "not an expression"),
        (ErrorKind::AugmentedAssignment, "non-constant augmented assignment"),
        (
            ErrorKind::Followers(Constant::Int(1), Follow::Field("x".to_owned())),
            "non-constant expression followers: ",
        ),
        (
            ErrorKind::UnaryOperation(UnaryOp::Not, string("a")),
            "non-constant unary operation: ",
        ),
        (
            ErrorKind::BinaryOperation(string("a"), BinaryOp::Sub, string("b")),
            "non-constant binary operation: ",
        ),
        (ErrorKind::NewExpression, "non-constant new expression"),
        (ErrorKind::MalformedRgb, "malformed rgb() call"),
        (ErrorKind::FunctionCall("f".to_owned()), "non-constant function call: f"),
        (ErrorKind::UnknownTypepath("/a".to_owned()), "unknown typepath /a"),
        (ErrorKind::UnknownVariable("a".to_owned()), "unknown variable: a"),
        (ErrorKind::Undeclared, "oh no"),
        (ErrorKind::Syntax("got EOF".to_owned()), "got EOF"),
    ];
    for (kind, text) in cases {
        assert_eq!(kind.headline(), text);
        assert_same(&kind.copied(), &kind);
    }
}

#[test]
fn notes_as_lines() {
    let none = String::new();
    assert_eq!(Note::Searching(17).lines(&none), vec!["searching type #17"]);
    assert_eq!(
        Note::IdentAsListKey("a".to_owned()).lines(&none),
        vec!["WARNING: ident used as list key: a"]
    );
    let folded = Note::Folded {
        source: "1 + 2".to_owned(),
        text: Some(Constant::Int(3).display()),
    };
    assert_eq!(folded.lines(&"3".to_owned()), vec!["1 + 2", "3", ""]);
    let same = Note::Folded { source: "3".to_owned(), text: Some(Constant::Int(3).display()) };
    assert!(same.lines(&"3".to_owned()).is_empty());
    let failed = Note::Folded { source: "sin()".to_owned(), text: None };
    assert_eq!(failed.lines(&none), vec!["sin()", ""]);
}

#[test]
fn typed_constants_are_copied() {
    let typed = TypedConstant { type_hint: Some(path(&["obj"])), constant: string("a") };
    assert_same(&typed.clone(), &typed);
}
