//! The constant folder.
use crate::ast;
use crate::ast::{BinaryOp, Expression, Follow, NewType, Prefab, Term, TypePath, UnaryOp};
use crate::constant;
use crate::constant::{ConstFn, Constant, ConstantV, FloatValue};
use crate::error;
use crate::error::{DMError, ErrorKind, Failure, FailureV, HasLocation, Location};
use crate::laws;
use crate::objtree;
use crate::objtree::{FullValue, NodeIndex, Note, ObjectTree, Parsed};
use crate::semantics;
use crate::semantics::{Run, Scope};
use crate::shared;
use crate::text;
use crate::vars;
use std::rc::Rc;
use vstd::prelude::*;
use vstd::string::StringExecFns;

verus! {

/// Evaluates the constant variables of all types, in order, until one fails.
pub fn evaluate_all(tree: &mut ObjectTree) -> (result: Result<(), DMError>)
    requires
        old(tree).wf(),
        !semantics::overflows(old(tree).program(), old(tree).open(), old(tree).memo()),
    ensures
        ({
            let run = semantics::sweep(
                old(tree).program(),
                old(tree).open(),
                old(tree).memo(),
                0,
                0,
            );
            final(tree).follows(*old(tree), run) && match (result, run.out) {
                (Ok(()), Ok(())) => true,
                (Err(error), Err(stopped)) => FailureV::Error(error@) == stopped.failure,
                _ => false,
            }
        }),
        // variables that had a value are as they were
        final(tree).keeps_known(*old(tree)),
        // success is a value for every variable that must be constant
        result is Ok <==> final(tree).evaluated(),
        // and where all have one already, nothing changes
        old(tree).evaluated() ==> *final(tree) == *old(tree),
        // success leaves no mark where there was none
        result is Ok && old(tree).unmarked() ==> final(tree).unmarked(),
{
    match checked_evaluate_all(tree) {
        Ok(()) => Ok(()),
        Err(Failure::Error(error)) => Err(error),
        Err(Failure::Arithmetic) => {
            assert(false);
            Ok(())
        },
    }
}

/// Evaluates the constant variables of all types, in order, until one fails or has integer
/// arithmetic in it that has no result.
#[verifier::rlimit(30)]
pub fn checked_evaluate_all(tree: &mut ObjectTree) -> (result: Result<(), Failure>)
    requires
        old(tree).wf(),
    ensures
        ({
            let run = semantics::sweep(
                old(tree).program(),
                old(tree).open(),
                old(tree).memo(),
                0,
                0,
            );
            final(tree).follows(*old(tree), run) && match (result, run.out) {
                (Ok(()), Ok(())) => true,
                (Err(failure), Err(stopped)) => failure@ == stopped.failure,
                _ => false,
            }
        }),
        // variables that had a value are as they were
        final(tree).keeps_known(*old(tree)),
        // success is a value for every variable that must be constant
        result is Ok <==> final(tree).evaluated(),
        // and where all have one already, nothing changes
        old(tree).evaluated() ==> *final(tree) == *old(tree),
        // success leaves no mark where there was none
        result is Ok && old(tree).unmarked() ==> final(tree).unmarked(),
{
    let ghost program = old(tree).program();
    let ghost run = semantics::sweep(program, old(tree).open(), old(tree).memo(), 0, 0);
    let mut ty: NodeIndex = 0;
    while ty < tree.graph.len()
        invariant
            old(tree).wf(),
            program == old(tree).program(),
            run == semantics::sweep(program, old(tree).open(), old(tree).memo(), 0, 0),
            tree.extends(*old(tree)),
            old(tree).evaluated() ==> *tree == *old(tree),
            ty <= program.types.len(),
            run == semantics::sweep(program, old(tree).open(), tree.memo(), ty as int, 0),
        decreases program.types.len() - ty,
    {
        let mut i: usize = 0;
        while i < tree.graph[ty].vars.len()
            invariant
                old(tree).wf(),
                program == old(tree).program(),
                run == semantics::sweep(program, old(tree).open(), old(tree).memo(), 0, 0),
                tree.extends(*old(tree)),
                old(tree).evaluated() ==> *tree == *old(tree),
                ty < program.types.len(),
                ty < tree.graph@.len(),
                i <= program.types[ty as int].vars.len(),
                run == semantics::sweep(
                    program,
                    old(tree).open(),
                    tree.memo(),
                    ty as int,
                    i as int,
                ),
            decreases program.types[ty as int].vars.len() - i,
        {
            let ghost before = *tree;
            let ghost at = (ty as int, i as int);
            assert(program.has(at));
            assert(program.var(at) == tree.var(at).decl());
            if tree.graph[ty].vars[i].1.is_const_evaluable() {
                let key = tree.graph[ty].vars[i].0.clone();
                proof {
                    let vars = program.types[ty as int].vars;
                    assert(vars[i as int].0 == key@);
                    assert(semantics::distinct_names(vars));
                    semantics::lemma_find(vars, key@, i as int);
                }
                match constant_ident_lookup(tree, ty, key.as_str(), false) {
                    Ok(ConstLookup::Found(_, _)) => {
                        proof {
                            tree.lemma_follows(
                                before,
                                *old(tree),
                                semantics::done(tree.memo(), ()),
                            );
                        }
                    },
                    Ok(ConstLookup::Continue(_)) => {
                        return Err(
                            Failure::Error(
                                DMError::new(Location::default(), ErrorKind::Undeclared),
                            ),
                        );
                    },
                    Err(failure) => {
                        proof {
                            tree.lemma_follows(before, *old(tree), run);
                            laws::law_evaluated_tree(*old(tree), *tree);
                        }
                        return Err(failure);
                    },
                }
            }
            i += 1;
        }
        ty += 1;
    }
    proof {
        laws::law_evaluated_tree(*old(tree), *tree);
        if old(tree).unmarked() {
            laws::law_no_mark_is_left(*old(tree), *tree);
        }
    }
    Ok(())
}

/// The result of looking a variable up in one type.
#[derive(Debug)]
pub enum ConstLookup {
    /// The type declares the variable: its declared type, and its value.
    Found(TypePath, Constant),
    /// The type does not declare it: the type to look in next.
    Continue(Option<NodeIndex>),
}

/// Whether a result is the outcome of a run.
pub open spec fn agrees(result: Result<Constant, Failure>, run: Run<ConstantV>) -> bool {
    match (result, run.out) {
        (Ok(constant), Ok(value)) => constant@ == value,
        (Err(failure), Err(stopped)) => failure@ == stopped.failure,
        _ => false,
    }
}

pub open spec fn hint_view(hint: Option<&TypePath>) -> Option<semantics::PathV> {
    match hint {
        Some(path) => Some(ast::path_view(path@)),
        None => None,
    }
}

/// Copies an expected type.
fn clone_hint(hint: Option<&TypePath>) -> (copy: Option<TypePath>)
    ensures
        constant::hint_view(copy) == hint_view(hint),
{
    match hint {
        Some(path) => Some(ast::clone_path(path)),
        None => None,
    }
}

/// The identifier that an expression is made of, in parentheses or not.
fn bare_ident(expression: &Expression) -> (ident: Option<&String>)
    ensures
        match ident {
            Some(ident) => semantics::bare_ident(*expression) == Some(ident@),
            None => semantics::bare_ident(*expression) is None,
        },
    decreases expression,
{
    match expression {
        Expression::Base { unary, term, follow } => if unary.is_empty() && follow.is_empty() {
            match term {
                Term::Ident(ident) => Some(ident),
                Term::Expr(inner) => bare_ident(inner),
                _ => None,
            }
        } else {
            None
        },
        _ => None,
    }
}

/// Looks a variable up in one type. The value that is currently set is taken if there is one;
/// otherwise the initialiser is evaluated. Where `must_be_static`, a variable that is not static
/// is refused, whether its value is set or not.
#[verifier::rlimit(30)]
pub fn constant_ident_lookup(
    tree: &mut ObjectTree,
    ty: NodeIndex,
    ident: &str,
    must_be_static: bool,
) -> (result: Result<ConstLookup, Failure>)
    requires
        old(tree).wf(),
        ty < old(tree).program().types.len(),
    ensures
        match semantics::find(old(tree).program().types[ty as int].vars, ident@) {
            None => *final(tree) == *old(tree) && result == Ok::<ConstLookup, Failure>(
                ConstLookup::Continue(old(tree).graph@[ty as int].parent),
            ),
            Some(i) => {
                let run = semantics::lookup(
                    old(tree).program(),
                    old(tree).open(),
                    old(tree).memo(),
                    (ty as int, i),
                    must_be_static,
                );
                final(tree).follows(*old(tree), run) && match (result, run.out) {
                    (Ok(ConstLookup::Found(path, constant)), Ok(value)) => ast::path_view(path@)
                        == old(tree).program().var((ty as int, i)).type_path && constant@ == value,
                    (Err(failure), Err(stopped)) => failure@ == stopped.failure,
                    _ => false,
                } && (old(tree).var((ty as int, i)).value is Some ==> *final(tree) == *old(tree))
            },
        },
    decreases
            old(tree).program().closed_count(old(tree).open()),
            0nat,
            None::<Expression>,
            0nat,
{
    let name = ident.to_owned();
    let i = match tree.graph[ty].find_var(&name) {
        None => {
            return Ok(ConstLookup::Continue(tree.graph[ty].parent_type()));
        },
        Some(i) => i,
    };
    let ghost at = (ty as int, i as int);
    assert(tree.program().has(at));
    assert(tree.program().var(at) == tree.var(at).decl());
    assert(tree.program().name(at) == ident@);
    let location: Location = tree.graph[ty].vars[i].1.location;
    let type_hint: TypePath = ast::clone_path(&tree.graph[ty].vars[i].1.type_path);
    let full_value: Rc<FullValue> = {
        let var = &tree.graph[ty].vars[i].1;
        match &var.value {
            Some(value) => {
                if !var.is_static && must_be_static {
                    return Err(
                        Failure::Error(
                            DMError::new(location, ErrorKind::NonStaticVariable(name)),
                        ),
                    );
                }
                return Ok(ConstLookup::Found(type_hint, value.clone()));
            },
            None => match &var.full_value {
                Some(full_value) => {
                    if var.being_evaluated {
                        return Err(
                            Failure::Error(
                                DMError::new(location, ErrorKind::RecursiveReference(name)),
                            ),
                        );
                    } else if !var.is_const_evaluable() {
                        return Err(
                            Failure::Error(
                                DMError::new(location, ErrorKind::NonConstVariable(name)),
                            ),
                        );
                    } else if !var.is_static && must_be_static {
                        return Err(
                            Failure::Error(
                                DMError::new(location, ErrorKind::NonStaticVariable(name)),
                            ),
                        );
                    }
                    shared::share(full_value)
                },
                None => {
                    if !var.is_static && must_be_static {
                        return Err(
                            Failure::Error(
                                DMError::new(location, ErrorKind::NonStaticVariable(name)),
                            ),
                        );
                    }
                    // basically means "null"
                    let value = Constant::Null(
                        clone_hint(if type_hint.is_empty() { None } else { Some(&type_hint) }),
                    );
                    tree.close_var(ty, i, value.clone());
                    assert(tree.open() =~= old(tree).open());
                    return Ok(ConstLookup::Found(type_hint, value));
                },
            },
        }
    };
    proof {
        semantics::lemma_closed_count(tree.program(), tree.open(), at);
    }
    tree.open_var(ty, i);
    let ghost opened = *tree;
    let value = match evaluate(
        tree,
        ty,
        location,
        if type_hint.is_empty() { None } else { Some(&type_hint) },
        &full_value,
    ) {
        Ok(value) => value,
        Err(failure) => {
            assert(tree.marked_from(*old(tree))) by {
                let _ = opened.var(at);
            }
            return Err(failure);
        },
    };
    tree.close_var(ty, i, value.clone());
    proof {
        assert(tree.open() =~= old(tree).open());
    }
    Ok(ConstLookup::Found(type_hint, value))
}

/// Evaluates an initialiser in the scope of a type.
pub fn evaluate(
    tree: &mut ObjectTree,
    ty: NodeIndex,
    location: Location,
    type_hint: Option<&TypePath>,
    value: &FullValue,
) -> (result: Result<Constant, Failure>)
    requires
        old(tree).wf(),
        ty < old(tree).program().types.len(),
    ensures
        ({
            let run = semantics::fold_full_value(
                (ConstantFolder { location, ty }).scope(*old(tree)),
                old(tree).memo(),
                *value,
                hint_view(type_hint),
            );
            final(tree).follows(*old(tree), run) && agrees(result, run)
        }),
    decreases
            old(tree).program().closed_count(old(tree).open()),
            3nat,
            None::<Expression>,
            0nat,
{
    let folder = ConstantFolder { location, ty };
    let expression = match &value.parsed {
        Parsed::Expression(expression) => expression,
        Parsed::Nothing => {
            return Err(folder.error(ErrorKind::NotAnExpression));
        },
        Parsed::Failed(error) => {
            return Err(Failure::Error(DMError::new(error.location, error.kind.copied())));
        },
    };
    let result = folder.expr(tree, expression, type_hint);
    match &result {
        Ok(constant) => {
            let text = constant.display();
            tree.note(Note::Folded { source: value.source.clone(), text: Some(text) });
        },
        Err(Failure::Error(_)) => {
            tree.note(Note::Folded { source: value.source.clone(), text: None });
        },
        Err(Failure::Arithmetic) => {},
    }
    result
}

/// Folds expressions in the scope of a type.
#[derive(Debug, Clone, Copy, PartialEq, Eq)]
pub struct ConstantFolder {
    /// The place that errors are reported at.
    pub location: Location,
    /// The type whose variables are in sight.
    pub ty: NodeIndex,
}

impl HasLocation for ConstantFolder {
    open spec fn located(&self) -> Location {
        self.location
    }

    fn location(&self) -> (location: Location) {
        self.location
    }
}

impl ConstantFolder {
    pub open spec fn scope(self, tree: ObjectTree) -> Scope {
        Scope {
            program: tree.program(),
            open: tree.open(),
            location: self.location,
            ty: self.ty as int,
        }
    }

    /// Folds an expression.
    #[verifier::loop_isolation(false)]
    #[verifier::rlimit(30)]
    pub fn expr(
        &self,
        tree: &mut ObjectTree,
        expression: &Expression,
        type_hint: Option<&TypePath>,
    ) -> (result: Result<Constant, Failure>)
        requires
            old(tree).wf(),
            self.ty < old(tree).program().types.len(),
        ensures
            ({
                let run = semantics::fold_expr(
                    self.scope(*old(tree)),
                    old(tree).memo(),
                    *expression,
                    hint_view(type_hint),
                );
                final(tree).follows(*old(tree), run) && agrees(result, run)
            }),
        decreases
                old(tree).program().closed_count(old(tree).open()),
                2nat,
                *expression,
                0nat,
    {
        let ghost scope = self.scope(*old(tree));
        match expression {
            Expression::Base { unary, term, follow } => {
                let base_type_hint = if follow.is_empty() && unary.is_empty() {
                    type_hint
                } else {
                    None
                };
                let mut term = match self.term(tree, term, base_type_hint) {
                    Ok(term) => term,
                    Err(failure) => {
                        return Err(failure);
                    },
                };
                let ghost followed = semantics::fold_follows(
                    scope,
                    tree.memo(),
                    term@,
                    follow@,
                    0,
                );
                let mut i: usize = 0;
                while i < follow.len()
                    invariant
                        i <= follow.len(),
                        old(tree).wf(),
                        self.ty < old(tree).program().types.len(),
                        scope == self.scope(*old(tree)),
                        tree.extends(*old(tree)),
                        decreases_to!(expression => follow),
                        followed == semantics::fold_follows(
                            scope,
                            tree.memo(),
                            term@,
                            follow@,
                            i as nat,
                        ),
                    decreases follow.len() - i,
                {
                    let ghost before = *tree;
                    term = match self.follow(tree, term, &follow[i]) {
                        Ok(term) => term,
                        Err(failure) => {
                            proof {
                                tree.lemma_follows(before, *old(tree), followed);
                            }
                            return Err(failure);
                        },
                    };
                    proof {
                        tree.lemma_follows(
                            before,
                            *old(tree),
                            semantics::done(tree.memo(), ()),
                        );
                    }
                    i += 1;
                }
                let ghost start = term@;
                let mut j: usize = unary.len();
                assert(unary@.take(j as int) =~= unary@);
                while j > 0
                    invariant
                        j <= unary.len(),
                        semantics::apply_unaries(self.location, unary@, start)
                            == semantics::apply_unaries(
                            self.location,
                            unary@.take(j as int),
                            term@,
                        ),
                    decreases j,
                {
                    let ghost left = unary@.take(j as int);
                    j -= 1;
                    assert(left.drop_last() =~= unary@.take(j as int));
                    assert(left.last() == unary@[j as int]);
                    term = match self.unary(term, unary[j]) {
                        Ok(term) => term,
                        Err(failure) => {
                            return Err(failure);
                        },
                    };
                }
                Ok(term)
            },
            Expression::BinaryOp { op, lhs, rhs } => {
                let lhs = match self.expr(tree, lhs, None) {
                    Ok(lhs) => lhs,
                    Err(failure) => {
                        return Err(failure);
                    },
                };
                let ghost middle = *tree;
                let rhs = self.expr(tree, rhs, None);
                proof {
                    let run = semantics::fold_expr(
                        scope,
                        middle.memo(),
                        *expression->BinaryOp_rhs,
                        None,
                    );
                    tree.lemma_follows(middle, *old(tree), run);
                }
                match rhs {
                    Ok(rhs) => self.binary(lhs, rhs, *op),
                    Err(failure) => Err(failure),
                }
            },
            _ => Err(self.error(ErrorKind::AugmentedAssignment)),
        }
    }

    /// Folds several expressions.
    #[verifier::loop_isolation(false)]
    pub fn expr_vec(&self, tree: &mut ObjectTree, v: &Vec<Expression>) -> (result: Result<
        Vec<Constant>,
        Failure,
    >)
        requires
            old(tree).wf(),
            self.ty < old(tree).program().types.len(),
        ensures
            ({
                let run = semantics::fold_all(
                    self.scope(*old(tree)),
                    old(tree).memo(),
                    v@,
                    seq![],
                );
                final(tree).follows(*old(tree), run) && match (result, run.out) {
                    (Ok(constants), Ok(values)) => constant::constants_view(constants@) == values,
                    (Err(failure), Err(stopped)) => failure@ == stopped.failure,
                    _ => false,
                }
            }),
        decreases old(tree).program().closed_count(old(tree).open()), 2nat, v@, v@.len() + 1,
    {
        let ghost scope = self.scope(*old(tree));
        let ghost run = semantics::fold_all(scope, old(tree).memo(), v@, seq![]);
        let mut out: Vec<Constant> = Vec::new();
        let mut i: usize = 0;
        assert(constant::constants_view(out@) =~= seq![]);
        while i < v.len()
            invariant
                i <= v.len(),
                out@.len() == i,
                old(tree).wf(),
                self.ty < old(tree).program().types.len(),
                scope == self.scope(*old(tree)),
                tree.extends(*old(tree)),
                run == semantics::fold_all(
                    scope,
                    tree.memo(),
                    v@,
                    constant::constants_view(out@),
                ),
            decreases v.len() - i,
        {
            let ghost before = *tree;
            let ghost seen = out@;
            assert(decreases_to!(v@ => v@[i as int]));
            match self.expr(tree, &v[i], None) {
                Ok(each) => {
                    out.push(each);
                    proof {
                        assert(constant::constants_view(out@) =~= constant::constants_view(
                            seen,
                        ).push(each@));
                        tree.lemma_follows(
                            before,
                            *old(tree),
                            semantics::done(tree.memo(), ()),
                        );
                    }
                },
                Err(failure) => {
                    proof {
                        tree.lemma_follows(before, *old(tree), run);
                    }
                    return Err(failure);
                },
            }
            i += 1;
        }
        Ok(out)
    }

    /// Folds one thing that follows a term.
    pub fn follow(&self, tree: &mut ObjectTree, term: Constant, follow: &Follow) -> (result: Result<
        Constant,
        Failure,
    >)
        requires
            old(tree).wf(),
            self.ty < old(tree).program().types.len(),
        ensures
            ({
                let run = semantics::fold_follow(
                    self.scope(*old(tree)),
                    old(tree).memo(),
                    term@,
                    *follow,
                );
                final(tree).follows(*old(tree), run) && agrees(result, run)
            }),
        decreases
                old(tree).program().closed_count(old(tree).open()),
                1nat,
                None::<Expression>,
                1nat,
    {
        match (term, follow) {
            // Meant to handle the GLOB.SCI_FREQ case.
            // If it's a reference to a type-hinted value, look up the field in
            // its static variables (but not non-static variables).
            (Constant::Null(Some(type_hint)), Follow::Field(field_name)) => {
                let mut full_path = String::new();
                let ghost path = ast::path_view(type_hint@);
                let mut i: usize = 0;
                assert(full_path@ =~= semantics::listed_path(path.take(0)));
                while i < type_hint.len()
                    invariant
                        i <= type_hint.len(),
                        path == ast::path_view(type_hint@),
                        full_path@ == semantics::listed_path(path.take(i as int)),
                    decreases type_hint.len() - i,
                {
                    assert(path.take(i + 1).drop_last() =~= path.take(i as int));
                    full_path.append("/");
                    full_path.append(type_hint[i].1.as_str());
                    i += 1;
                }
                assert(path.take(i as int) =~= path);
                match tree.find_type(&full_path) {
                    Some(idx) => self.recursive_lookup(tree, idx, field_name.as_str(), true),
                    None => Err(self.error(ErrorKind::UnknownTypepath(full_path))),
                }
            },
            (term, follow) => Err(self.error(ErrorKind::Followers(term, follow.copied()))),
        }
    }

    /// Folds a term.
    #[verifier::rlimit(30)]
    pub fn term(&self, tree: &mut ObjectTree, term: &Term, type_hint: Option<&TypePath>) -> (result:
        Result<Constant, Failure>)
        requires
            old(tree).wf(),
            self.ty < old(tree).program().types.len(),
        ensures
            ({
                let run = semantics::fold_term(
                    self.scope(*old(tree)),
                    old(tree).memo(),
                    *term,
                    hint_view(type_hint),
                );
                final(tree).follows(*old(tree), run) && agrees(result, run)
            }),
        decreases old(tree).program().closed_count(old(tree).open()), 2nat, *term, 0nat,
    {
        match term {
            Term::Null => Ok(Constant::Null(clone_hint(type_hint))),
            Term::New { type_, args } => {
                let type_ = match type_ {
                    NewType::Prefab(e) => match self.prefab(tree, e) {
                        Ok(prefab) => NewType::Prefab(prefab),
                        Err(failure) => {
                            return Err(failure);
                        },
                    },
                    NewType::Implicit => NewType::Implicit,
                    NewType::Ident(_) => {
                        return Err(self.error(ErrorKind::NewExpression));
                    },
                };
                let ghost middle = *tree;
                let args = match args {
                    Some(args) => {
                        let folded = self.expr_vec(tree, args);
                        proof {
                            let run = semantics::fold_all(
                                self.scope(*old(tree)),
                                middle.memo(),
                                args@,
                                seq![],
                            );
                            tree.lemma_follows(middle, *old(tree), run);
                        }
                        match folded {
                            Ok(args) => Some(args),
                            Err(failure) => {
                                return Err(failure);
                            },
                        }
                    },
                    None => None,
                };
                Ok(Constant::New { type_, args })
            },
            Term::List(vec) => {
                let element_type_path;
                let mut element_type: Option<&TypePath> = None;
                if let Some(path) = type_hint {
                    if !path.is_empty() && path[0].1 == "list".to_owned() {
                        element_type_path = ast::clone_path_from(path, 1);
                        assert(ast::path_view(element_type_path@) =~= ast::path_view(path@).skip(1));
                        element_type = Some(&element_type_path);
                    }
                }
                match self.list(tree, vec, element_type) {
                    Ok(out) => Ok(Constant::List(out)),
                    Err(failure) => Err(failure),
                }
            },
            Term::Call(ident, args) => {
                // constructors which remain as they are
                if *ident == "matrix".to_owned() {
                    self.call(tree, ConstFn::Matrix, args)
                } else if *ident == "newlist".to_owned() {
                    self.call(tree, ConstFn::Newlist, args)
                } else if *ident == "icon".to_owned() {
                    self.call(tree, ConstFn::Icon, args)
                } else if *ident == "rgb".to_owned() {
                    // constant-evaluatable functions
                    self.rgb(tree, args)
                } else {
                    // other functions are no-goes
                    Err(self.error(ErrorKind::FunctionCall(ident.clone())))
                }
            },
            Term::Prefab(prefab) => match self.prefab(tree, prefab) {
                Ok(prefab) => Ok(Constant::Prefab(prefab)),
                Err(failure) => Err(failure),
            },
            Term::Ident(ident) => self.ident(tree, ident.as_str(), type_hint, false),
            Term::String(v) => Ok(Constant::String(v.clone())),
            Term::Resource(v) => Ok(Constant::Resource(v.clone())),
            Term::Int(v) => Ok(Constant::Int(*v)),
            Term::Float(v) => Ok(Constant::Float(FloatValue::Literal(*v))),
            Term::Expr(expr) => self.expr(tree, expr, type_hint),
        }
    }

    /// Folds a call that remains as it is.
    fn call(&self, tree: &mut ObjectTree, const_fn: ConstFn, args: &Vec<Expression>) -> (result:
        Result<Constant, Failure>)
        requires
            old(tree).wf(),
            self.ty < old(tree).program().types.len(),
        ensures
            ({
                let run = semantics::fold_all(
                    self.scope(*old(tree)),
                    old(tree).memo(),
                    args@,
                    seq![],
                );
                final(tree).follows(*old(tree), run) && match (result, run.out) {
                    (Ok(constant), Ok(values)) => constant@ == ConstantV::Call(const_fn, values),
                    (Err(failure), Err(stopped)) => failure@ == stopped.failure,
                    _ => false,
                }
            }),
        decreases
                old(tree).program().closed_count(old(tree).open()),
                2nat,
                args@,
                args@.len() + 2,
    {
        match self.expr_vec(tree, args) {
            Ok(args) => Ok(Constant::Call(const_fn, args)),
            Err(failure) => Err(failure),
        }
    }

    /// Folds a colour.
    #[verifier::loop_isolation(false)]
    #[verifier::rlimit(30)]
    fn rgb(&self, tree: &mut ObjectTree, args: &Vec<Expression>) -> (result: Result<
        Constant,
        Failure,
    >)
        requires
            old(tree).wf(),
            self.ty < old(tree).program().types.len(),
        ensures
            ({
                let run = if args@.len() != 3 && args@.len() != 4 {
                    semantics::refused(
                        self.scope(*old(tree)),
                        old(tree).memo(),
                        error::ErrorKindV::MalformedRgb,
                    )
                } else {
                    semantics::fold_rgb(self.scope(*old(tree)), old(tree).memo(), args@, "#"@, 0)
                };
                final(tree).follows(*old(tree), run) && agrees(result, run)
            }),
        decreases
                old(tree).program().closed_count(old(tree).open()),
                2nat,
                args@,
                args@.len() + 2,
    {
        if args.len() != 3 && args.len() != 4 {
            return Err(self.error(ErrorKind::MalformedRgb));
        }
        let ghost scope = self.scope(*old(tree));
        let ghost run = semantics::fold_rgb(scope, old(tree).memo(), args@, "#"@, 0);
        let mut result = "#".to_owned();
        let mut i: usize = 0;
        while i < args.len()
            invariant
                i <= args.len(),
                old(tree).wf(),
                self.ty < old(tree).program().types.len(),
                scope == self.scope(*old(tree)),
                tree.extends(*old(tree)),
                run == semantics::fold_rgb(scope, tree.memo(), args@, result@, i as nat),
            decreases args.len() - i,
        {
            let ghost before = *tree;
            assert(decreases_to!(args@ => args@[i as int]));
            match self.expr(tree, &args[i], None) {
                Ok(Constant::Int(each)) => {
                    let clamped: u32 = if each < 0 {
                        0
                    } else if each > 255 {
                        255
                    } else {
                        each as u32
                    };
                    text::append_hex_pair(&mut result, clamped);
                    proof {
                        tree.lemma_follows(
                            before,
                            *old(tree),
                            semantics::done(tree.memo(), ()),
                        );
                    }
                },
                Ok(_) => {
                    proof {
                        tree.lemma_follows(before, *old(tree), semantics::done(tree.memo(), ()));
                    }
                    return Err(self.error(ErrorKind::MalformedRgb));
                },
                Err(failure) => {
                    proof {
                        tree.lemma_follows(before, *old(tree), run);
                    }
                    return Err(failure);
                },
            }
            i += 1;
        }
        Ok(Constant::String(result))
    }

    /// Folds the items of a list.
    #[verifier::loop_isolation(false)]
    #[verifier::rlimit(30)]
    fn list(
        &self,
        tree: &mut ObjectTree,
        items: &Vec<(Expression, Option<Expression>)>,
        element_type: Option<&TypePath>,
    ) -> (result: Result<Vec<(Constant, Option<Constant>)>, Failure>)
        requires
            old(tree).wf(),
            self.ty < old(tree).program().types.len(),
        ensures
            ({
                let run = semantics::fold_items(
                    self.scope(*old(tree)),
                    old(tree).memo(),
                    items@,
                    hint_view(element_type),
                    seq![],
                );
                final(tree).follows(*old(tree), run) && match (result, run.out) {
                    (Ok(constants), Ok(values)) => constant::items_view(constants@) == values,
                    (Err(failure), Err(stopped)) => failure@ == stopped.failure,
                    _ => false,
                }
            }),
        decreases
                old(tree).program().closed_count(old(tree).open()),
                2nat,
                items@,
                items@.len() + 1,
    {
        let ghost scope = self.scope(*old(tree));
        let ghost hint = hint_view(element_type);
        let ghost run = semantics::fold_items(scope, old(tree).memo(), items@, hint, seq![]);
        let mut out: Vec<(Constant, Option<Constant>)> = Vec::new();
        let mut i: usize = 0;
        assert(constant::items_view(out@) =~= seq![]);
        while i < items.len()
            invariant
                i <= items.len(),
                out@.len() == i,
                old(tree).wf(),
                self.ty < old(tree).program().types.len(),
                scope == self.scope(*old(tree)),
                hint == hint_view(element_type),
                tree.extends(*old(tree)),
                run == semantics::fold_items(
                    scope,
                    tree.memo(),
                    items@,
                    hint,
                    constant::items_view(out@),
                ),
            decreases items.len() - i,
        {
            let ghost before = *tree;
            let ghost seen = out@;
            assert(decreases_to!(items@ => items@[i as int]));
            let (key, val) = &items[i];
            match val {
                Some(val) => {
                    let key = match self.key(tree, key, element_type) {
                        Ok(key) => key,
                        Err(failure) => {
                            proof {
                                tree.lemma_follows(before, *old(tree), run);
                            }
                            return Err(failure);
                        },
                    };
                    let ghost middle = *tree;
                    proof {
                        tree.lemma_follows(before, *old(tree), semantics::done(tree.memo(), ()));
                    }
                    match self.expr(tree, val, element_type) {
                        Ok(val) => {
                            out.push((key, Some(val)));
                            proof {
                                assert(constant::items_view(out@) =~= constant::items_view(
                                    seen,
                                ).push((key@, Some(val@))));
                                tree.lemma_follows(
                                    middle,
                                    *old(tree),
                                    semantics::done(tree.memo(), ()),
                                );
                            }
                        },
                        Err(failure) => {
                            proof {
                                tree.lemma_follows(middle, *old(tree), run);
                            }
                            return Err(failure);
                        },
                    }
                },
                None => match self.expr(tree, key, element_type) {
                    Ok(key) => {
                        out.push((key, None));
                        proof {
                            assert(constant::items_view(out@) =~= constant::items_view(seen).push(
                                (key@, None),
                            ));
                            tree.lemma_follows(
                                before,
                                *old(tree),
                                semantics::done(tree.memo(), ()),
                            );
                        }
                    },
                    Err(failure) => {
                        proof {
                            tree.lemma_follows(before, *old(tree), run);
                        }
                        return Err(failure);
                    },
                },
            }
            i += 1;
        }
        Ok(out)
    }

    /// Folds the key of a list item that has a value as well.
    fn key(&self, tree: &mut ObjectTree, key: &Expression, element_type: Option<&TypePath>) -> (result:
        Result<Constant, Failure>)
        requires
            old(tree).wf(),
            self.ty < old(tree).program().types.len(),
        ensures
            ({
                let run = semantics::fold_key(
                    self.scope(*old(tree)),
                    old(tree).memo(),
                    *key,
                    hint_view(element_type),
                );
                final(tree).follows(*old(tree), run) && agrees(result, run)
            }),
        decreases old(tree).program().closed_count(old(tree).open()), 2nat, *key, 1nat,
    {
        match bare_ident(key) {
            Some(ident) => {
                tree.note(Note::IdentAsListKey(ident.clone()));
                Ok(Constant::String(ident.clone()))
            },
            None => self.expr(tree, key, element_type),
        }
    }

    /// Folds a prefab.
    #[verifier::loop_isolation(false)]
    #[verifier::rlimit(30)]
    pub fn prefab(&self, tree: &mut ObjectTree, prefab: &Prefab<Expression>) -> (result: Result<
        Prefab<Constant>,
        Failure,
    >)
        requires
            old(tree).wf(),
            self.ty < old(tree).program().types.len(),
        ensures
            ({
                let run = semantics::fold_prefab(
                    self.scope(*old(tree)),
                    old(tree).memo(),
                    *prefab,
                );
                final(tree).follows(*old(tree), run) && match (result, run.out) {
                    (Ok(folded), Ok(value)) => constant::prefab_view(folded) == value,
                    (Err(failure), Err(stopped)) => failure@ == stopped.failure,
                    _ => false,
                }
            }),
        decreases old(tree).program().closed_count(old(tree).open()), 2nat, *prefab, 0nat,
    {
        let ghost scope = self.scope(*old(tree));
        let ghost run = semantics::fold_vars(scope, old(tree).memo(), prefab.vars@, seq![], 0);
        let mut vars = vars::new_map();
        let mut i: usize = 0;
        while i < prefab.vars.len()
            invariant
                i <= prefab.vars.len(),
                old(tree).wf(),
                self.ty < old(tree).program().types.len(),
                scope == self.scope(*old(tree)),
                tree.extends(*old(tree)),
                run == semantics::fold_vars(
                    scope,
                    tree.memo(),
                    prefab.vars@,
                    vars::entries(vars),
                    i as nat,
                ),
            decreases prefab.vars.len() - i,
        {
            let ghost before = *tree;
            assert(decreases_to!(*prefab => prefab.vars@[i as int]));
            // The type that the prefab declares for the name is not looked up.
            match self.expr(tree, &prefab.vars[i].1, None) {
                Ok(value) => {
                    vars::insert(&mut vars, prefab.vars[i].0.clone(), value);
                    proof {
                        tree.lemma_follows(
                            before,
                            *old(tree),
                            semantics::done(tree.memo(), ()),
                        );
                    }
                },
                Err(failure) => {
                    proof {
                        tree.lemma_follows(before, *old(tree), run);
                    }
                    return Err(failure);
                },
            }
            i += 1;
        }
        Ok(Prefab { path: ast::clone_path(&prefab.path), vars: vars::into_entries(vars) })
    }

    /// Folds an identifier.
    pub fn ident(
        &self,
        tree: &mut ObjectTree,
        ident: &str,
        type_hint: Option<&TypePath>,
        must_be_static: bool,
    ) -> (result: Result<Constant, Failure>)
        requires
            old(tree).wf(),
            self.ty < old(tree).program().types.len(),
        ensures
            ({
                let run = semantics::fold_ident(
                    self.scope(*old(tree)),
                    old(tree).memo(),
                    ident@,
                    hint_view(type_hint),
                    must_be_static,
                );
                final(tree).follows(*old(tree), run) && agrees(result, run)
            }),
        decreases
                old(tree).program().closed_count(old(tree).open()),
                1nat,
                None::<Expression>,
                1nat,
    {
        if ident.to_owned() == "null".to_owned() {
            Ok(Constant::Null(clone_hint(type_hint)))
        } else {
            self.recursive_lookup(tree, self.ty, ident, must_be_static)
        }
    }

    /// Looks a name up in a type and its ancestors.
    #[verifier::rlimit(30)]
    pub fn recursive_lookup(
        &self,
        tree: &mut ObjectTree,
        ty: NodeIndex,
        ident: &str,
        must_be_static: bool,
    ) -> (result: Result<Constant, Failure>)
        requires
            old(tree).wf(),
            ty < old(tree).program().types.len(),
        ensures
            ({
                let run = semantics::search(
                    self.scope(*old(tree)),
                    old(tree).memo(),
                    ty as int,
                    ident@,
                    must_be_static,
                );
                final(tree).follows(*old(tree), run) && agrees(result, run)
            }),
        decreases
                old(tree).program().closed_count(old(tree).open()),
                1nat,
                None::<Expression>,
                0nat,
    {
        let ghost program = old(tree).program();
        let ghost total = program.types.len();
        let ghost owner = program.owner(ty as int, ident@, total);
        let ghost notes = old(tree).memo().notes + program.searched(ty as int, ident@, total);
        let ghost mut limit = total;
        let mut idx: NodeIndex = ty;
        assert(program.rooted(ty as int, total));
        loop
            invariant
                old(tree).wf(),
                program == old(tree).program(),
                total == program.types.len(),
                owner == program.owner(ty as int, ident@, total),
                notes == old(tree).memo().notes + program.searched(ty as int, ident@, total),
                tree.extends(*old(tree)),
                tree.memo().values == old(tree).memo().values,
                program.rooted(idx as int, limit),
                owner == program.owner(idx as int, ident@, limit),
                notes == tree.memo().notes + program.searched(idx as int, ident@, limit),
            decreases limit,
        {
            let ghost before = *tree;
            tree.note(Note::Searching(idx));
            proof {
                tree.lemma_follows(before, *old(tree), semantics::done(tree.memo(), ()));
            }
            let ghost noted = *tree;
            let ghost found = semantics::find(program.types[idx as int].vars, ident@);
            proof {
                let rest = program.searched(idx as int, ident@, limit).skip(1);
                assert(program.searched(idx as int, ident@, limit) =~= seq![
                    objtree::NoteV::Searching(idx as int),
                ] + rest);
                assert(notes =~= noted.memo().notes + rest);
                if found is Some || program.types[idx as int].parent is None {
                    assert(rest =~= seq![]);
                    assert(notes =~= noted.memo().notes);
                }
                assert(program.types[idx as int].parent == objtree::index_view(
                    noted.graph@[idx as int].parent,
                ));
            }
            let looked_up = constant_ident_lookup(tree, idx, ident, must_be_static);
            proof {
                if let Some(i) = found {
                    let run = semantics::lookup(
                        program,
                        old(tree).open(),
                        noted.memo(),
                        (idx as int, i),
                        must_be_static,
                    );
                    tree.lemma_follows(noted, *old(tree), run);
                }
            }
            match looked_up {
                Ok(ConstLookup::Found(_, v)) => {
                    return Ok(v);
                },
                Ok(ConstLookup::Continue(Some(parent))) => {
                    idx = parent;
                    proof {
                        limit = (limit - 1) as nat;
                    }
                },
                Ok(ConstLookup::Continue(None)) => {
                    return Err(self.error(ErrorKind::UnknownVariable(ident.to_owned())));
                },
                Err(Failure::Error(e)) => {
                    return Err(Failure::Error(DMError::new(self.location, e.kind)));
                },
                Err(Failure::Arithmetic) => {
                    return Err(Failure::Arithmetic);
                },
            }
        }
    }

    /// Applies a unary operator.
    pub fn unary(&self, term: Constant, op: UnaryOp) -> (result: Result<Constant, Failure>)
        ensures
            match (result, semantics::apply_unary(self.location, op, term@)) {
                (Ok(constant), Ok(value)) => constant@ == value,
                (Err(failure), Err(expected)) => failure@ == expected,
                _ => false,
            },
    {
        match term {
            Constant::Int(i) => match op {
                UnaryOp::Neg => if i == i32::MIN {
                    Err(Failure::Arithmetic)
                } else {
                    Ok(Constant::Int(-i))
                },
                UnaryOp::BitNot => {
                    assert(!i == -1 - i) by (bit_vector);
                    Ok(Constant::Int(!i))
                },
                UnaryOp::Not => Ok(Constant::Int(if i != 0 { 0 } else { 1 })),
                _ => Err(self.error(ErrorKind::UnaryOperation(op, Constant::Int(i)))),
            },
            Constant::Float(i) => match op {
                UnaryOp::Neg => Ok(Constant::Float(FloatValue::Neg(Rc::new(i)))),
                _ => Err(self.error(ErrorKind::UnaryOperation(op, Constant::Float(i)))),
            },
            term => Err(self.error(ErrorKind::UnaryOperation(op, term))),
        }
    }

    /// Applies a binary operator.
    pub fn binary(&self, lhs: Constant, rhs: Constant, op: BinaryOp) -> (result: Result<
        Constant,
        Failure,
    >)
        ensures
            match (result, semantics::apply_binary(self.location, lhs@, rhs@, op)) {
                (Ok(constant), Ok(value)) => constant@ == value,
                (Err(failure), Err(expected)) => failure@ == expected,
                _ => false,
            },
    {
        match (lhs, rhs) {
            (Constant::Int(l), Constant::Int(r)) => match int_operation(op, l, r) {
                Some(Some(value)) => Ok(Constant::Int(value)),
                Some(None) => Err(Failure::Arithmetic),
                None => Err(
                    self.error(
                        ErrorKind::BinaryOperation(Constant::Int(l), op, Constant::Int(r)),
                    ),
                ),
            },
            (Constant::Int(l), Constant::Float(r)) => if is_numeric(op) {
                Ok(Constant::Float(float_operation(op, FloatValue::OfInt(l), r)))
            } else {
                Err(
                    self.error(
                        ErrorKind::BinaryOperation(Constant::Int(l), op, Constant::Float(r)),
                    ),
                )
            },
            (Constant::Float(l), Constant::Int(r)) => if is_numeric(op) {
                Ok(Constant::Float(float_operation(op, l, FloatValue::OfInt(r))))
            } else {
                Err(
                    self.error(
                        ErrorKind::BinaryOperation(Constant::Float(l), op, Constant::Int(r)),
                    ),
                )
            },
            (Constant::Float(l), Constant::Float(r)) => if is_numeric(op) {
                Ok(Constant::Float(float_operation(op, l, r)))
            } else {
                Err(
                    self.error(
                        ErrorKind::BinaryOperation(Constant::Float(l), op, Constant::Float(r)),
                    ),
                )
            },
            (Constant::String(l), Constant::String(r)) => if matches!(op, BinaryOp::Add) {
                Ok(Constant::String(l.concat(r.as_str())))
            } else {
                Err(
                    self.error(
                        ErrorKind::BinaryOperation(Constant::String(l), op, Constant::String(r)),
                    ),
                )
            },
            (lhs, rhs) => Err(self.error(ErrorKind::BinaryOperation(lhs, op, rhs))),
        }
    }
}

/// The operators that numbers of either kind have.
fn is_numeric(op: BinaryOp) -> (numeric: bool)
    ensures
        forall|lhs: FloatValue, rhs: FloatValue|
            numeric == (#[trigger] semantics::float_operation(op, lhs, rhs) is Some),
{
    matches!(op, BinaryOp::Add | BinaryOp::Sub | BinaryOp::Mul | BinaryOp::Div)
}

/// An arithmetic operation on single-precision values.
fn float_operation(op: BinaryOp, lhs: FloatValue, rhs: FloatValue) -> (value: FloatValue)
    requires
        semantics::float_operation(op, lhs, rhs) is Some,
    ensures
        semantics::float_operation(op, lhs, rhs) == Some(value),
{
    match op {
        BinaryOp::Add => FloatValue::Add(Rc::new(lhs), Rc::new(rhs)),
        BinaryOp::Sub => FloatValue::Sub(Rc::new(lhs), Rc::new(rhs)),
        BinaryOp::Mul => FloatValue::Mul(Rc::new(lhs), Rc::new(rhs)),
        _ => FloatValue::Div(Rc::new(lhs), Rc::new(rhs)),
    }
}

/// An operation on integers: nothing where there is no such operation, and in it nothing where
/// the operation has no result.
fn int_operation(op: BinaryOp, lhs: i32, rhs: i32) -> (outcome: Option<Option<i32>>)
    ensures
        match outcome {
            Some(Some(value)) => semantics::int_operation(op, lhs, rhs) == Some(
                Ok::<ConstantV, FailureV>(ConstantV::Int(value)),
            ),
            Some(None) => semantics::int_operation(op, lhs, rhs) == Some(
                Err::<ConstantV, FailureV>(FailureV::Arithmetic),
            ),
            None => semantics::int_operation(op, lhs, rhs) is None,
        },
{
    match op {
        BinaryOp::Add => Some(lhs.checked_add(rhs)),
        BinaryOp::Sub => Some(lhs.checked_sub(rhs)),
        BinaryOp::Mul => Some(lhs.checked_mul(rhs)),
        BinaryOp::Div => Some(lhs.checked_div(rhs)),
        BinaryOp::BitOr => Some(Some(lhs | rhs)),
        BinaryOp::BitAnd => Some(Some(lhs & rhs)),
        BinaryOp::LShift => Some(
            if 0 <= rhs && rhs < 32 {
                Some(lhs << rhs)
            } else {
                None
            },
        ),
        BinaryOp::RShift => Some(
            if 0 <= rhs && rhs < 32 {
                Some(lhs >> rhs)
            } else {
                None
            },
        ),
        _ => None,
    }
}

} // verus!
