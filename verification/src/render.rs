//! Constants as text.
//!
//! The text of a constant is what would be written for it in a source file. How a
//! single-precision number is written is left open: the text holds the number itself.
use crate::ast::{NewType, PathOp, Prefab};
use crate::constant;
use crate::constant::{ConstFn, Constant, ConstantV, FloatValue, NewTypeV, PrefabV, TypedConstant};
use crate::text;
use vstd::prelude::*;
use vstd::string::StringExecFns;

verus! {

/// A part of a text: characters, or a number that is still to be written out.
#[derive(Debug)]
pub enum Fragment {
    Text(String),
    Float(FloatValue),
}

/// A text with numbers in it.
#[derive(Debug)]
pub struct Rendered {
    pub fragments: Vec<Fragment>,
}

/// One character of a text, or one number in it.
pub ghost enum Glyph {
    Char(char),
    Float(FloatValue),
}

pub open spec fn char_glyph(c: char) -> Glyph {
    Glyph::Char(c)
}

/// A text without numbers.
pub open spec fn plain(chars: Seq<char>) -> Seq<Glyph> {
    Seq::new(chars.len(), |i: int| char_glyph(chars[i]))
}

pub open spec fn fragment_view(fragment: Fragment) -> Seq<Glyph> {
    match fragment {
        Fragment::Text(text) => plain(text@),
        Fragment::Float(value) => seq![Glyph::Float(value)],
    }
}

pub open spec fn fragments_view(fragments: Seq<Fragment>) -> Seq<Glyph>
    decreases fragments.len(),
{
    if fragments.len() == 0 {
        seq![]
    } else {
        fragments_view(fragments.drop_last()) + fragment_view(fragments.last())
    }
}

impl View for Rendered {
    type V = Seq<Glyph>;

    open spec fn view(&self) -> Seq<Glyph> {
        fragments_view(self.fragments@)
    }
}

/// The parts, with `separator` between each two.
pub open spec fn separated(parts: Seq<Seq<Glyph>>, separator: Seq<Glyph>) -> Seq<Glyph>
    decreases parts.len(),
{
    if parts.len() == 0 {
        seq![]
    } else if parts.len() == 1 {
        parts[0]
    } else {
        separated(parts.drop_last(), separator) + separator + parts.last()
    }
}

/// The name under which a function is called.
pub open spec fn const_fn_name(const_fn: ConstFn) -> Seq<char> {
    match const_fn {
        ConstFn::Icon => "icon"@,
        ConstFn::Matrix => "matrix"@,
        ConstFn::Newlist => "newlist"@,
    }
}

pub open spec fn path_op_text(op: PathOp) -> Seq<char> {
    match op {
        PathOp::Slash => "/"@,
        PathOp::Dot => "."@,
        PathOp::Colon => ":"@,
    }
}

pub open spec fn path_text(path: Seq<(PathOp, Seq<char>)>) -> Seq<char>
    decreases path.len(),
{
    if path.len() == 0 {
        seq![]
    } else {
        path_text(path.drop_last()) + path_op_text(path.last().0) + path.last().1
    }
}

/// The text of a constant.
pub open spec fn render(constant: ConstantV) -> Seq<Glyph>
    decreases constant,
{
    match constant {
        ConstantV::Null(_) => plain("null"@),
        ConstantV::New { type_, args } => render_new_type(type_) + (match args {
            Some(args) => plain("("@) + separated(render_all(args), plain(", "@)) + plain(")"@),
            None => seq![],
        }),
        ConstantV::List(items) => plain("list("@) + separated(render_items(items), plain(", "@))
            + plain(")"@),
        ConstantV::Call(const_fn, args) => plain(const_fn_name(const_fn)) + plain("("@) + separated(
            render_all(args),
            plain(", "@),
        ) + plain(")"@),
        ConstantV::Prefab(prefab) => render_prefab(prefab),
        ConstantV::String(text) => plain("\""@) + plain(text) + plain("\""@),
        ConstantV::Resource(name) => plain("'"@) + plain(name) + plain("'"@),
        ConstantV::Int(value) => plain(text::decimal(value as int)),
        ConstantV::Float(value) => seq![Glyph::Float(value)],
    }
}

pub open spec fn render_new_type(type_: NewTypeV<ConstantV>) -> Seq<Glyph>
    decreases type_,
{
    plain("new"@) + match type_ {
        NewTypeV::Implicit => seq![],
        NewTypeV::Prefab(prefab) => plain(" "@) + render_prefab(prefab),
        NewTypeV::Ident(ident) => plain(" "@) + plain(ident),
    }
}

pub open spec fn render_all(constants: Seq<ConstantV>) -> Seq<Seq<Glyph>>
    decreases constants,
{
    Seq::new(
        constants.len(),
        |i: int|
            if 0 <= i < constants.len() {
                render(constants[i])
            } else {
                arbitrary()
            },
    )
}

pub open spec fn render_items(items: Seq<(ConstantV, Option<ConstantV>)>) -> Seq<Seq<Glyph>>
    decreases items,
{
    Seq::new(
        items.len(),
        |i: int|
            if 0 <= i < items.len() {
                render(items[i].0) + (match items[i].1 {
                    Some(value) => plain(" = "@) + render(value),
                    None => seq![],
                })
            } else {
                arbitrary()
            },
    )
}

pub open spec fn render_vars(vars: Seq<(Seq<char>, ConstantV)>) -> Seq<Seq<Glyph>>
    decreases vars,
{
    Seq::new(
        vars.len(),
        |i: int|
            if 0 <= i < vars.len() {
                plain(vars[i].0) + plain(" = "@) + render(vars[i].1)
            } else {
                arbitrary()
            },
    )
}

pub open spec fn render_prefab(prefab: PrefabV<ConstantV>) -> Seq<Glyph>
    decreases prefab,
{
    plain(path_text(prefab.path)) + if prefab.vars.len() == 0 {
        seq![]
    } else {
        plain(" {"@) + separated(render_vars(prefab.vars), plain("; "@)) + plain("}"@)
    }
}

/// With at least one part before it, the last part comes after a separator.
proof fn lemma_separated_next(parts: Seq<Seq<Glyph>>, separator: Seq<Glyph>, i: int)
    requires
        0 <= i < parts.len(),
    ensures
        separated(parts.take(i + 1), separator) == separated(parts.take(i), separator) + (if i == 0 {
            seq![]
        } else {
            separator
        }) + parts[i],
{
    assert(parts.take(i + 1).drop_last() =~= parts.take(i));
    assert(parts.take(i + 1).last() == parts[i]);
    if i == 0 {
        assert(separated(parts.take(0), separator) =~= seq![]);
    }
}

impl Rendered {
    pub fn new() -> (rendered: Rendered)
        ensures
            rendered@ == Seq::<Glyph>::empty(),
    {
        Rendered { fragments: Vec::new() }
    }

    /// Appends characters.
    pub fn push_str(&mut self, text: &str)
        ensures
            final(self)@ == old(self)@ + plain(text@),
    {
        let ghost before = self.fragments@;
        match self.fragments.pop() {
            Some(Fragment::Text(last)) => {
                let ghost head = self.fragments@;
                let mut joined = last;
                let ghost last_chars = joined@;
                joined.append(text);
                assert(plain(last_chars + text@) =~= plain(last_chars) + plain(text@));
                self.fragments.push(Fragment::Text(joined));
                assert(self.fragments@.drop_last() =~= head);
            },
            Some(last) => {
                self.fragments.push(last);
                assert(self.fragments@ =~= before);
                self.fragments.push(Fragment::Text(text.to_owned()));
                assert(self.fragments@.drop_last() =~= before);
            },
            None => {
                self.fragments.push(Fragment::Text(text.to_owned()));
                assert(self.fragments@.drop_last() =~= before);
            },
        }
    }

    /// Appends a number.
    pub fn push_float(&mut self, value: FloatValue)
        ensures
            final(self)@ == old(self)@.push(Glyph::Float(value)),
    {
        let ghost before = self.fragments@;
        self.fragments.push(Fragment::Float(value));
        assert(self.fragments@.drop_last() =~= before);
    }

    /// The characters, unless there is a number among them.
    pub fn to_text(&self) -> (text: Option<String>)
        ensures
            match text {
                Some(text) => self@ == plain(text@),
                None => exists|i: int| 0 <= i < self@.len() && #[trigger] self@[i] is Float,
            },
    {
        let mut text = String::new();
        let mut i: usize = 0;
        assert(fragments_view(self.fragments@.take(0)) =~= plain(text@));
        while i < self.fragments.len()
            invariant
                i <= self.fragments.len(),
                fragments_view(self.fragments@.take(i as int)) == plain(text@),
            decreases self.fragments.len() - i,
        {
            assert(self.fragments@.take(i + 1).drop_last() =~= self.fragments@.take(i as int));
            match &self.fragments[i] {
                Fragment::Text(chars) => {
                    let ghost before = text@;
                    text.append(chars.as_str());
                    assert(plain(before + chars@) =~= plain(before) + plain(chars@));
                },
                Fragment::Float(value) => {
                    proof {
                        lemma_view_of_prefix(self.fragments@, i + 1);
                        let shown = fragments_view(self.fragments@.take(i + 1));
                        assert(shown.last() == Glyph::Float(*value));
                        assert(self@[shown.len() - 1] is Float);
                    }
                    return None;
                },
            }
            i += 1;
        }
        assert(self.fragments@.take(i as int) =~= self.fragments@);
        Some(text)
    }
}

/// The text of the first fragments starts the text of all.
proof fn lemma_view_of_prefix(fragments: Seq<Fragment>, n: int)
    requires
        0 <= n <= fragments.len(),
    ensures
        fragments_view(fragments.take(n)).is_prefix_of(fragments_view(fragments)),
    decreases fragments.len() - n,
{
    if n == fragments.len() {
        assert(fragments.take(n) =~= fragments);
    } else {
        lemma_view_of_prefix(fragments, n + 1);
        assert(fragments.take(n + 1).drop_last() =~= fragments.take(n));
    }
}

impl ConstFn {
    /// The name under which the function is called.
    pub fn name(&self) -> (name: &'static str)
        ensures
            name@ == const_fn_name(*self),
    {
        match self {
            ConstFn::Icon => "icon",
            ConstFn::Matrix => "matrix",
            ConstFn::Newlist => "newlist",
        }
    }
}

impl PathOp {
    /// How the operator is written.
    pub fn name(&self) -> (name: &'static str)
        ensures
            name@ == path_op_text(*self),
    {
        match self {
            PathOp::Slash => "/",
            PathOp::Dot => ".",
            PathOp::Colon => ":",
        }
    }
}

impl TypedConstant {
    /// The text of the constant; the type that is expected of it does not show.
    pub fn display(&self) -> (rendered: Rendered)
        ensures
            rendered@ == render(self.constant@),
    {
        self.constant.display()
    }
}

impl Constant {
    /// The text of the constant.
    pub fn display(&self) -> (rendered: Rendered)
        ensures
            rendered@ == render(self@),
    {
        let mut out = Rendered::new();
        self.fmt(&mut out);
        assert(out@ =~= render(self@));
        out
    }

    /// Appends the text of the constant.
    #[verifier::rlimit(30)]
    pub fn fmt(&self, f: &mut Rendered)
        ensures
            final(f)@ == old(f)@ + render(self@),
        decreases self, 1nat,
    {
        match self {
            Constant::Null(_) => f.push_str("null"),
            Constant::New { type_, args } => {
                fmt_new_type(type_, f);
                if let Some(args) = args {
                    f.push_str("(");
                    fmt_all(args, f);
                    f.push_str(")");
                }
                assert(f@ =~= old(f)@ + render(self@));
            },
            Constant::List(list) => {
                f.push_str("list(");
                fmt_items(list, f);
                f.push_str(")");
                assert(f@ =~= old(f)@ + render(self@));
            },
            Constant::Call(const_fn, list) => {
                f.push_str(const_fn.name());
                f.push_str("(");
                fmt_all(list, f);
                f.push_str(")");
                assert(f@ =~= old(f)@ + render(self@));
            },
            Constant::Prefab(val) => fmt_prefab(val, f),
            Constant::String(val) => {
                f.push_str("\"");
                f.push_str(val.as_str());
                f.push_str("\"");
                assert(f@ =~= old(f)@ + render(self@));
            },
            Constant::Resource(val) => {
                f.push_str("'");
                f.push_str(val.as_str());
                f.push_str("'");
                assert(f@ =~= old(f)@ + render(self@));
            },
            Constant::Int(val) => {
                let mut number = String::new();
                text::append_decimal(&mut number, *val);
                assert(number@ =~= text::decimal(*val as int));
                f.push_str(number.as_str());
            },
            Constant::Float(val) => {
                f.push_float(val.clone());
                assert(f@ =~= old(f)@ + render(self@));
            },
        }
    }
}

fn fmt_new_type(type_: &NewType<Constant>, f: &mut Rendered)
    ensures
        final(f)@ == old(f)@ + render_new_type(constant::new_type_view(*type_)),
    decreases type_, 0nat,
{
    f.push_str("new");
    match type_ {
        NewType::Implicit => {},
        NewType::Prefab(prefab) => {
            f.push_str(" ");
            fmt_prefab(prefab, f);
        },
        NewType::Ident(ident) => {
            f.push_str(" ");
            f.push_str(ident.as_str());
        },
    }
    assert(f@ =~= old(f)@ + render_new_type(constant::new_type_view(*type_)));
}

fn fmt_all(list: &Vec<Constant>, f: &mut Rendered)
    ensures
        final(f)@ == old(f)@ + separated(
            render_all(constant::constants_view(list@)),
            plain(", "@),
        ),
    decreases list, 0nat,
{
    let ghost parts = render_all(constant::constants_view(list@));
    let mut i: usize = 0;
    assert(f@ =~= old(f)@ + separated(parts.take(0), plain(", "@)));
    while i < list.len()
        invariant
            i <= list.len(),
            parts == render_all(constant::constants_view(list@)),
            f@ == old(f)@ + separated(parts.take(i as int), plain(", "@)),
        decreases list.len() - i,
    {
        assert(decreases_to!(list => list@[i as int]));
        if i != 0 {
            f.push_str(", ");
        }
        list[i].fmt(f);
        proof {
            lemma_separated_next(parts, plain(", "@), i as int);
            assert(parts[i as int] == render(list@[i as int]@));
            assert(f@ =~= old(f)@ + separated(parts.take(i + 1), plain(", "@)));
        }
        i += 1;
    }
    assert(parts.take(i as int) =~= parts);
}

fn fmt_items(list: &Vec<(Constant, Option<Constant>)>, f: &mut Rendered)
    ensures
        final(f)@ == old(f)@ + separated(
            render_items(constant::items_view(list@)),
            plain(", "@),
        ),
    decreases list, 0nat,
{
    let ghost parts = render_items(constant::items_view(list@));
    let mut i: usize = 0;
    assert(f@ =~= old(f)@ + separated(parts.take(0), plain(", "@)));
    while i < list.len()
        invariant
            i <= list.len(),
            parts == render_items(constant::items_view(list@)),
            f@ == old(f)@ + separated(parts.take(i as int), plain(", "@)),
        decreases list.len() - i,
    {
        assert(decreases_to!(list => list@[i as int]));
        if i != 0 {
            f.push_str(", ");
        }
        let (key, val) = &list[i];
        key.fmt(f);
        if let Some(val) = val {
            f.push_str(" = ");
            val.fmt(f);
        }
        proof {
            lemma_separated_next(parts, plain(", "@), i as int);
            assert(f@ =~= old(f)@ + separated(parts.take(i + 1), plain(", "@)));
        }
        i += 1;
    }
    assert(parts.take(i as int) =~= parts);
}

fn fmt_prefab(prefab: &Prefab<Constant>, f: &mut Rendered)
    ensures
        final(f)@ == old(f)@ + render_prefab(constant::prefab_view(*prefab)),
    decreases prefab, 0nat,
{
    let mut path = String::new();
    let mut i: usize = 0;
    let ghost segments = crate::ast::path_view(prefab.path@);
    assert(path@ =~= path_text(segments.take(0)));
    while i < prefab.path.len()
        invariant
            i <= prefab.path.len(),
            segments == crate::ast::path_view(prefab.path@),
            path@ == path_text(segments.take(i as int)),
        decreases prefab.path.len() - i,
    {
        path.append(prefab.path[i].0.name());
        path.append(prefab.path[i].1.as_str());
        assert(segments.take(i + 1).drop_last() =~= segments.take(i as int));
        i += 1;
    }
    assert(segments.take(i as int) =~= segments);
    f.push_str(path.as_str());
    let ghost vars = constant::vars_view(prefab.vars@);
    if prefab.vars.len() != 0 {
        f.push_str(" {");
        let ghost start = f@;
        let ghost parts = render_vars(vars);
        let mut j: usize = 0;
        assert(f@ =~= start + separated(parts.take(0), plain("; "@)));
        while j < prefab.vars.len()
            invariant
                j <= prefab.vars.len(),
                vars == constant::vars_view(prefab.vars@),
                parts == render_vars(vars),
                f@ == start + separated(parts.take(j as int), plain("; "@)),
            decreases prefab.vars.len() - j,
        {
            assert(decreases_to!(prefab => prefab.vars@[j as int]));
            if j != 0 {
                f.push_str("; ");
            }
            f.push_str(prefab.vars[j].0.as_str());
            f.push_str(" = ");
            prefab.vars[j].1.fmt(f);
            proof {
                lemma_separated_next(parts, plain("; "@), j as int);
                assert(f@ =~= start + separated(parts.take(j + 1), plain("; "@)));
            }
            j += 1;
        }
        assert(parts.take(j as int) =~= parts);
        f.push_str("}");
    }
    assert(f@ =~= old(f)@ + render_prefab(constant::prefab_view(*prefab)));
}

} // verus!
