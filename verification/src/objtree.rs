//! The object tree: types, and the variables that they declare.
use crate::ast;
use crate::ast::{Expression, TypePath};
use crate::constant::{Constant, ConstantV};
use crate::error::{DMError, Location};
use crate::render::{Glyph, Rendered};
use crate::semantics;
use crate::semantics::{Memo, Program, Run, TypeDecl, VarDecl};
use crate::text;
use std::rc::Rc;
use vstd::prelude::*;
use vstd::string::StringExecFns;

verus! {

/// The place of a type in the tree.
pub type NodeIndex = usize;

/// What the parser made of a variable's initialiser.
#[derive(Debug)]
pub enum Parsed {
    Expression(Expression),
    /// There is no expression in it.
    Nothing,
    Failed(DMError),
}

/// A variable's initialiser.
#[derive(Debug)]
pub struct FullValue {
    /// The initialiser as text.
    pub source: String,
    pub parsed: Parsed,
}

/// A variable.
#[derive(Debug)]
pub struct TypeVar {
    pub location: Location,
    /// The declared type, empty where none was declared.
    pub type_path: TypePath,
    /// The value, once it is known.
    pub value: Option<Constant>,
    /// The initialiser, where there is one.
    pub full_value: Option<Rc<FullValue>>,
    pub is_static: bool,
    /// Whether the initialiser must be a constant.
    pub const_evaluable: bool,
    /// Whether the value is being worked out.
    pub being_evaluated: bool,
}

/// A type.
#[derive(Debug)]
pub struct Type {
    pub parent: Option<NodeIndex>,
    /// The variables that the type itself declares, each under its name.
    pub vars: Vec<(String, TypeVar)>,
}

/// What is worth telling a user about the course of folding.
#[derive(Debug)]
pub enum Note {
    /// A variable is looked for in a type.
    Searching(NodeIndex),
    /// An identifier stands where a list expects a key, and is taken as text.
    IdentAsListKey(String),
    /// An initialiser was folded: its text, and the text of the constant if there is one.
    Folded { source: String, text: Option<Rendered> },
}

/// Types in a fixed order, with the paths they are found under.
#[derive(Debug)]
pub struct ObjectTree {
    pub graph: Vec<Type>,
    pub types: Vec<(String, NodeIndex)>,
    pub notes: Vec<Note>,
}

/// The mathematical value of a note.
pub ghost enum NoteV {
    Searching(int),
    IdentAsListKey(Seq<char>),
    Folded(Seq<char>, Option<Seq<Glyph>>),
}

impl View for Note {
    type V = NoteV;

    open spec fn view(&self) -> NoteV {
        match *self {
            Note::Searching(ty) => NoteV::Searching(ty as int),
            Note::IdentAsListKey(ident) => NoteV::IdentAsListKey(ident@),
            Note::Folded { source, text } => NoteV::Folded(
                source@,
                match text {
                    Some(text) => Some(text@),
                    None => None,
                },
            ),
        }
    }
}

/// The lines that tell a user of a note. Of a folded initialiser nothing is told where `written`,
/// the text of the constant, is the text of the initialiser.
pub open spec fn told(note: NoteV, written: Seq<char>) -> Seq<Seq<char>> {
    match note {
        NoteV::Searching(ty) => seq!["searching type #"@ + text::decimal(ty)],
        NoteV::IdentAsListKey(ident) => seq!["WARNING: ident used as list key: "@ + ident],
        NoteV::Folded(source, Some(_)) => if source == written {
            seq![]
        } else {
            seq![source, written, seq![]]
        },
        NoteV::Folded(source, None) => seq![source, seq![]],
    }
}

pub open spec fn lines_view(lines: Seq<String>) -> Seq<Seq<char>> {
    lines.map_values(|line: String| line@)
}

impl Note {
    /// The lines that tell a user of the note. The text of a folded constant is handed over as
    /// `written`, with its numbers written out.
    pub fn lines(&self, written: &String) -> (lines: Vec<String>)
        ensures
            lines_view(lines@) == told(self@, written@),
    {
        let mut lines: Vec<String> = Vec::new();
        match self {
            Note::Searching(ty) => {
                let mut line = "searching type #".to_owned();
                text::append_index(&mut line, *ty);
                lines.push(line);
            },
            Note::IdentAsListKey(ident) => {
                lines.push("WARNING: ident used as list key: ".to_owned().concat(ident.as_str()));
            },
            Note::Folded { source, text: Some(_) } => {
                if *source != *written {
                    lines.push(source.clone());
                    lines.push(written.clone());
                    lines.push(String::new());
                }
            },
            Note::Folded { source, text: None } => {
                lines.push(source.clone());
                lines.push(String::new());
            },
        }
        assert(lines_view(lines@) =~= told(self@, written@));
        lines
    }
}

pub open spec fn index_view(index: Option<NodeIndex>) -> Option<int> {
    match index {
        Some(index) => Some(index as int),
        None => None,
    }
}

impl TypeVar {
    /// What is declared of the variable.
    pub open spec fn decl(self) -> VarDecl {
        VarDecl {
            location: self.location,
            type_path: ast::path_view(self.type_path@),
            full_value: match self.full_value {
                Some(full_value) => Some(*full_value),
                None => None,
            },
            is_static: self.is_static,
            const_evaluable: self.const_evaluable,
        }
    }

    /// Whether the variable's initialiser must be a constant.
    pub fn is_const_evaluable(&self) -> (evaluable: bool)
        ensures
            evaluable == self.const_evaluable,
    {
        self.const_evaluable
    }
}

pub open spec fn named_decl(var: (String, TypeVar)) -> (Seq<char>, VarDecl) {
    (var.0@, var.1.decl())
}

impl Type {
    /// What is declared of the type.
    pub open spec fn decl(self) -> TypeDecl {
        TypeDecl {
            parent: index_view(self.parent),
            vars: Seq::new(self.vars@.len(), |i: int| named_decl(self.vars@[i])),
        }
    }

    /// The type that this one inherits from.
    pub fn parent_type(&self) -> (parent: Option<NodeIndex>)
        ensures
            parent == self.parent,
    {
        self.parent
    }

    /// The place of the first variable of that name.
    pub fn find_var(&self, name: &String) -> (found: Option<usize>)
        ensures
            index_view(found) == semantics::find(self.decl().vars, name@),
    {
        let ghost vars = self.decl().vars;
        let mut i: usize = 0;
        while i < self.vars.len()
            invariant
                i <= self.vars.len(),
                vars == self.decl().vars,
                forall|j: int| 0 <= j < i ==> (#[trigger] vars[j]).0 != name@,
            decreases self.vars.len() - i,
        {
            assert(vars[i as int].0 == self.vars@[i as int].0@);
            if self.vars[i].0 == *name {
                proof {
                    semantics::lemma_find(vars, name@, i as int);
                }
                return Some(i);
            }
            i += 1;
        }
        None
    }
}

pub open spec fn named_index(entry: (String, NodeIndex)) -> (Seq<char>, int) {
    (entry.0@, entry.1 as int)
}

impl ObjectTree {
    /// What is declared, which folding leaves as it is.
    pub open spec fn program(self) -> Program {
        Program {
            types: Seq::new(self.graph@.len(), |i: int| self.graph@[i].decl()),
            paths: Seq::new(self.types@.len(), |i: int| named_index(self.types@[i])),
        }
    }

    /// The variable at a place.
    pub open spec fn var(self, at: (int, int)) -> TypeVar {
        self.graph@[at.0].vars@[at.1].1
    }

    /// The values that are known.
    pub open spec fn values(self) -> Map<(int, int), ConstantV> {
        Map::new(
            |at: (int, int)| self.program().has(at) && self.var(at).value is Some,
            |at: (int, int)| self.var(at).value->0@,
        )
    }

    /// The variables whose values are being worked out.
    pub open spec fn open(self) -> Set<(int, int)> {
        Set::new(
            |at: (int, int)|
                self.program().has(at) && self.var(at).being_evaluated && self.var(at).value is None
                    && self.var(at).full_value is Some,
        )
    }

    /// What folding has found so far.
    pub open spec fn memo(self) -> Memo {
        Memo {
            values: self.values(),
            notes: Seq::new(self.notes@.len(), |i: int| self.notes@[i]@),
        }
    }

    /// Whether every type has finitely many ancestors, all of them in the tree, no type declares
    /// a name twice, no path is listed twice, and all paths lead into the tree.
    pub open spec fn wf(self) -> bool {
        self.program().wf()
    }

    /// Whether the variables are marked as being evaluated as they were before, but for those
    /// that have been opened since and those that have got a value since.
    pub open spec fn marked_from(self, before: ObjectTree) -> bool {
        forall|at: (int, int)|
            self.program().has(at) ==> (#[trigger] self.var(at)).being_evaluated == (if self.values()
                .contains_key(at) && !before.values().contains_key(at) {
                false
            } else if self.open().contains(at) && !before.open().contains(at) {
                true
            } else {
                before.var(at).being_evaluated
            })
    }

    /// Whether the variables that had a value before are as they were.
    pub open spec fn keeps_known(self, before: ObjectTree) -> bool {
        forall|at: (int, int)|
            before.program().has(at) && before.var(at).value is Some ==> #[trigger] self.var(at)
                == before.var(at)
    }

    /// Whether every variable whose initialiser must be a constant has a value.
    pub open spec fn evaluated(self) -> bool {
        forall|at: (int, int)| #[trigger]
            self.program().has(at) && self.var(at).const_evaluable ==> self.var(at).value is Some
    }

    /// Whether no variable is marked as being evaluated.
    pub open spec fn unmarked(self) -> bool {
        forall|at: (int, int)| #[trigger]
            self.program().has(at) ==> !self.var(at).being_evaluated
    }

    /// A tree is evaluated when its memo says so.
    pub(crate) proof fn lemma_evaluated(self)
        ensures
            self.evaluated() <==> semantics::all_evaluated(self.program(), self.memo()),
    {
        assert forall|at: (int, int)| #[trigger] self.program().has(at) implies self.program().var(
            at,
        ) == self.var(at).decl() by {}
        if self.evaluated() {
            assert forall|at: (int, int)| #[trigger]
                self.program().has(at) && self.program().var(
                    at,
                ).const_evaluable implies self.memo().values.contains_key(at) by {
                assert(self.var(at).const_evaluable);
            }
        }
        if semantics::all_evaluated(self.program(), self.memo()) {
            assert forall|at: (int, int)| #[trigger]
                self.program().has(at) && self.var(at).const_evaluable implies self.var(
                at,
            ).value is Some by {
                assert(self.program().var(at).const_evaluable);
                assert(self.memo().values.contains_key(at));
            }
        }
    }

    /// Whether this is the tree that a run leaves, which started with the tree `before`.
    pub open spec fn follows<T>(self, before: ObjectTree, run: Run<T>) -> bool {
        &&& self.program() == before.program()
        &&& self.memo() == run.memo
        &&& self.open() == match run.out {
            Ok(_) => before.open(),
            Err(stopped) => stopped.open,
        }
        &&& self.keeps_known(before)
        &&& self.marked_from(before)
    }

    /// Whether this tree is `before` after things that went well.
    pub open spec fn extends(self, before: ObjectTree) -> bool {
        self.follows(before, semantics::done(self.memo(), ()))
    }

    /// A run that follows others that went well.
    pub(crate) proof fn lemma_follows<T>(self, middle: ObjectTree, before: ObjectTree, run: Run<T>)
        requires
            middle.extends(before),
            self.follows(middle, run),
        ensures
            self.follows(before, run),
    {
        assert forall|at: (int, int)|
            self.program().has(at) implies (#[trigger] self.var(at)).being_evaluated == (
        if self.values().contains_key(at) && !before.values().contains_key(at) {
            false
        } else if self.open().contains(at) && !before.open().contains(at) {
            true
        } else {
            before.var(at).being_evaluated
        }) by {
            assert(middle.program().has(at));
            let _ = middle.var(at);
            let _ = before.var(at);
        }
    }

    /// Whether this tree is `before` but for what is known of the variable at a place.
    spec fn differs_at(self, before: ObjectTree, at: (int, int)) -> bool {
        &&& self.types@ == before.types@
        &&& self.notes@ == before.notes@
        &&& self.graph@.len() == before.graph@.len()
        &&& forall|ty: int|
            0 <= ty < self.graph@.len() ==> {
                &&& (#[trigger] self.graph@[ty]).parent == before.graph@[ty].parent
                &&& self.graph@[ty].vars@.len() == before.graph@[ty].vars@.len()
                &&& forall|i: int|
                    0 <= i < self.graph@[ty].vars@.len() ==> {
                        &&& (#[trigger] self.graph@[ty].vars@[i]).0 == before.graph@[ty].vars@[i].0
                        &&& self.graph@[ty].vars@[i].1.decl() == before.graph@[ty].vars@[i].1.decl()
                        &&& (ty, i) != at ==> self.graph@[ty].vars@[i].1
                            == before.graph@[ty].vars@[i].1
                    }
            }
    }

    proof fn lemma_differs_at(self, before: ObjectTree, at: (int, int))
        requires
            before.program().has(at),
            self.differs_at(before, at),
        ensures
            self.program() == before.program(),
            self.memo().notes == before.memo().notes,
            forall|other: (int, int)|
                self.program().has(other) && other != at ==> #[trigger] self.var(other)
                    == before.var(other),
    {
        assert forall|ty: int| 0 <= ty < self.graph@.len() implies #[trigger] self.graph@[ty].decl()
            == before.graph@[ty].decl() by {
            assert(self.graph@[ty].decl().vars =~= before.graph@[ty].decl().vars);
        }
        assert(self.program().types =~= before.program().types);
        assert(self.program().paths =~= before.program().paths);
    }

    /// Marks a variable as being evaluated.
    pub(crate) fn open_var(&mut self, ty: NodeIndex, i: usize)
        requires
            old(self).program().has((ty as int, i as int)),
            old(self).var((ty as int, i as int)).value is None,
            old(self).var((ty as int, i as int)).full_value is Some,
        ensures
            final(self).program() == old(self).program(),
            final(self).memo() == old(self).memo(),
            final(self).open() == old(self).open().insert((ty as int, i as int)),
            final(self).var((ty as int, i as int)).being_evaluated,
            forall|other: (int, int)|
                final(self).program().has(other) && other != (ty as int, i as int)
                    ==> #[trigger] final(self).var(other) == old(self).var(other),
    {
        let ghost at = (ty as int, i as int);
        self.graph[ty].vars[i].1.being_evaluated = true;
        proof {
            self.lemma_differs_at(*old(self), at);
            assert(self.values() =~= old(self).values());
            assert(self.open() =~= old(self).open().insert(at));
        }
    }

    /// Records the value of a variable.
    pub(crate) fn close_var(&mut self, ty: NodeIndex, i: usize, value: Constant)
        requires
            old(self).program().has((ty as int, i as int)),
        ensures
            final(self).program() == old(self).program(),
            final(self).memo() == old(self).memo().with_value((ty as int, i as int), value@),
            final(self).open() == old(self).open().remove((ty as int, i as int)),
            !final(self).var((ty as int, i as int)).being_evaluated,
            forall|other: (int, int)|
                final(self).program().has(other) && other != (ty as int, i as int)
                    ==> #[trigger] final(self).var(other) == old(self).var(other),
    {
        let ghost at = (ty as int, i as int);
        self.graph[ty].vars[i].1.value = Some(value);
        self.graph[ty].vars[i].1.being_evaluated = false;
        proof {
            self.lemma_differs_at(*old(self), at);
            assert(self.values() =~= old(self).values().insert(at, value@));
            assert(self.open() =~= old(self).open().remove(at));
        }
    }

    /// Takes a note.
    pub(crate) fn note(&mut self, note: Note)
        ensures
            final(self).memo() == old(self).memo().with_note(note@),
            final(self).extends(*old(self)),
    {
        self.notes.push(note);
        proof {
            assert(self.memo().notes =~= old(self).memo().with_note(note@).notes);
            assert(self.values() =~= old(self).values());
            assert(self.open() =~= old(self).open());
        }
    }

    /// Looks a type up by its path.
    pub fn find_type(&self, path: &String) -> (found: Option<NodeIndex>)
        ensures
            index_view(found) == self.program().type_at(path@),
    {
        let ghost paths = self.program().paths;
        let mut i: usize = 0;
        while i < self.types.len()
            invariant
                i <= self.types.len(),
                paths == self.program().paths,
                forall|j: int| 0 <= j < i ==> (#[trigger] paths[j]).0 != path@,
            decreases self.types.len() - i,
        {
            assert(paths[i as int].0 == self.types@[i as int].0@);
            if self.types[i].0 == *path {
                proof {
                    semantics::lemma_find(paths, path@, i as int);
                }
                return Some(self.types[i].1);
            }
            i += 1;
        }
        None
    }

    /// Whether the ancestors of a type, that type among them, are at most as many as there are
    /// types, and all in the tree.
    fn is_rooted(&self, ty: NodeIndex) -> (rooted: bool)
        ensures
            rooted == self.program().rooted(ty as int, self.graph@.len()),
    {
        let ghost program = self.program();
        let mut current: NodeIndex = ty;
        let mut limit: usize = self.graph.len();
        while limit > 0
            invariant
                program == self.program(),
                program.rooted(ty as int, self.graph@.len()) == program.rooted(
                    current as int,
                    limit as nat,
                ),
            decreases limit,
        {
            if current >= self.graph.len() {
                return false;
            }
            assert(program.types[current as int] == self.graph@[current as int].decl());
            match self.graph[current].parent_type() {
                Some(parent) => {
                    current = parent;
                },
                None => {
                    return true;
                },
            }
            limit -= 1;
        }
        false
    }

    /// Whether the tree is in order: every type has finitely many ancestors, all of them in the
    /// tree, no type declares a name twice, no path is listed twice, and all paths lead into the
    /// tree.
    pub fn is_well_formed(&self) -> (well_formed: bool)
        ensures
            well_formed == self.wf(),
    {
        let ghost program = self.program();
        let mut ty: NodeIndex = 0;
        while ty < self.graph.len()
            invariant
                ty <= self.graph.len(),
                program == self.program(),
                forall|i: int|
                    0 <= i < ty ==> #[trigger] program.rooted(i, program.types.len()),
                forall|i: int|
                    0 <= i < ty ==> semantics::distinct_names(#[trigger] program.types[i].vars),
            decreases self.graph.len() - ty,
        {
            let ghost decl = self.graph@[ty as int].decl();
            assert(program.types[ty as int] == decl);
            if !self.is_rooted(ty) {
                assert(!program.rooted(ty as int, program.types.len()));
                return false;
            }
            if !are_distinct(&self.graph[ty].vars) {
                proof {
                    let vars = self.graph@[ty as int].vars@;
                    let (i, j) = choose|i: int, j: int|
                        0 <= i < j < vars.len() && (#[trigger] vars[i]).0@ == (#[trigger] vars[j]).0@;
                    assert(decl.vars[i].0 == decl.vars[j].0);
                    assert(!semantics::distinct_names(program.types[ty as int].vars));
                }
                return false;
            }
            proof {
                let vars = self.graph@[ty as int].vars@;
                assert forall|i: int, j: int| 0 <= i < j < decl.vars.len() implies (
                #[trigger] decl.vars[i]).0 != (#[trigger] decl.vars[j]).0 by {
                    assert(vars[i].0@ != vars[j].0@);
                }
            }
            ty += 1;
        }
        if !are_distinct(&self.types) {
            proof {
                let (i, j) = choose|i: int, j: int|
                    0 <= i < j < self.types@.len() && (#[trigger] self.types@[i]).0@ == (
                    #[trigger] self.types@[j]).0@;
                assert(program.paths[i].0 == program.paths[j].0);
            }
            return false;
        }
        proof {
            assert forall|i: int, j: int| 0 <= i < j < program.paths.len() implies (
            #[trigger] program.paths[i]).0 != (#[trigger] program.paths[j]).0 by {
                assert(self.types@[i].0@ != self.types@[j].0@);
            }
        }
        let mut i: usize = 0;
        while i < self.types.len()
            invariant
                i <= self.types.len(),
                program == self.program(),
                forall|j: int|
                    0 <= j < i ==> 0 <= (#[trigger] program.paths[j]).1 < program.types.len(),
            decreases self.types.len() - i,
        {
            assert(program.paths[i as int].1 == self.types@[i as int].1);
            if self.types[i].1 >= self.graph.len() {
                return false;
            }
            i += 1;
        }
        true
    }
}

/// Whether no name stands twice.
fn are_distinct<T>(entries: &Vec<(String, T)>) -> (distinct: bool)
    ensures
        distinct == forall|i: int, j: int|
            0 <= i < j < entries@.len() ==> (#[trigger] entries@[i]).0@ != (
            #[trigger] entries@[j]).0@,
{
    let mut i: usize = 0;
    while i < entries.len()
        invariant
            i <= entries.len(),
            forall|k: int, j: int|
                0 <= k < i && k < j < entries@.len() ==> (#[trigger] entries@[k]).0@ != (
                #[trigger] entries@[j]).0@,
        decreases entries.len() - i,
    {
        let mut j: usize = i + 1;
        while j < entries.len()
            invariant
                i < j <= entries.len(),
                forall|k: int| i < k < j ==> entries@[i as int].0@ != (#[trigger] entries@[k]).0@,
            decreases entries.len() - j,
        {
            if entries[i].0 == entries[j].0 {
                assert(entries@[i as int].0@ == entries@[j as int].0@);
                return false;
            }
            j += 1;
        }
        i += 1;
    }
    true
}

} // verus!
