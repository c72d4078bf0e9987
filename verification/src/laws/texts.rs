//! What constants, numbers, errors and notes look like as text.
use crate::ast::PathOp;
use crate::constant::{ConstFn, ConstantV, FloatValue, NewTypeV, PrefabV};
use crate::error;
use crate::error::ErrorKindV;
use crate::laws;
use crate::laws::terms;
use crate::objtree;
use crate::objtree::NoteV;
use crate::render;
use crate::render::{Fragment, Glyph};
use crate::text;
use vstd::prelude::*;

verus! {

/// The number that decimal digits read as.
pub open spec fn read(digits: Seq<char>) -> int
    decreases digits.len(),
{
    if digits.len() == 0 {
        0
    } else {
        10 * read(digits.drop_last()) + (digits.last() as int - '0' as int)
    }
}

proof fn lemma_digits_read_back(value: nat)
    ensures
        text::digits(value).len() >= 1,
        forall|i: int|
            0 <= i < text::digits(value).len() ==> '0' <= #[trigger] text::digits(value)[i] <= '9',
        text::digits(value)[0] == '0' ==> value == 0 && text::digits(value).len() == 1,
        read(text::digits(value)) == value,
    decreases value,
{
    let digits = text::digits(value);
    if value < 10 {
        assert(digits.drop_last() =~= seq![]);
        assert(read(digits.drop_last()) == 0);
    } else {
        lemma_digits_read_back(value / 10);
        assert(digits.drop_last() =~= text::digits(value / 10));
        assert(value == 10 * (value / 10) + value % 10);
        assert(digits[0] == text::digits(value / 10)[0]);
    }
}

/// A number in decimal is digits that read as it, without a zero in front, after a minus sign
/// where it is negative.
pub proof fn law_decimals(value: int)
    ensures
        ({
            let shown = text::decimal(value);
            let digits = if value < 0 {
                shown.skip(1)
            } else {
                shown
            };
            &&& value < 0 ==> shown[0] == '-'
            &&& digits.len() >= 1
            &&& forall|i: int| 0 <= i < digits.len() ==> '0' <= #[trigger] digits[i] <= '9'
            &&& digits.len() > 1 ==> digits[0] != '0'
            &&& read(digits) == (if value < 0 {
                -value
            } else {
                value
            })
        }),
{
    if value < 0 {
        lemma_digits_read_back((-value) as nat);
        assert(text::decimal(value).skip(1) =~= text::digits((-value) as nat));
    } else {
        lemma_digits_read_back(value as nat);
    }
}

/// Two hexadecimal digits, in lower case, read as the number that they were made of.
pub proof fn law_hex_pairs(value: nat)
    requires
        value < 256,
    ensures
        text::hex_pair(value).len() == 2,
        laws::is_hex_digit(text::hex_pair(value)[0]),
        laws::is_hex_digit(text::hex_pair(value)[1]),
        16 * terms::digit_value(text::hex_pair(value)[0]) + terms::digit_value(
            text::hex_pair(value)[1],
        ) == value,
{
    terms::lemma_hex_pair_reads_back(value);
}

/// Characters as text are just these characters.
pub proof fn law_plain_text(chars: Seq<char>)
    ensures
        render::plain(chars).len() == chars.len(),
        forall|i: int|
            0 <= i < chars.len() ==> #[trigger] render::plain(chars)[i] == Glyph::Char(chars[i]),
{
}

/// A text is that of its fragments, one after the other: characters, and numbers as they are.
pub proof fn law_fragments(front: Seq<Fragment>, behind: Seq<Fragment>)
    ensures
        render::fragments_view(front + behind) == render::fragments_view(front)
            + render::fragments_view(behind),
        front.len() == 0 ==> render::fragments_view(front).len() == 0,
        front.len() == 1 ==> render::fragments_view(front) == (match front[0] {
            Fragment::Text(chars) => render::plain(chars@),
            Fragment::Float(value) => seq![Glyph::Float(value)],
        }),
    decreases behind.len(),
{
    if front.len() == 1 {
        assert(front.drop_last() =~= seq![]);
        assert(render::fragments_view(front.drop_last()) =~= seq![]);
        assert(render::fragments_view(front) =~= render::fragment_view(front[0]));
    }
    if behind.len() == 0 {
        assert(front + behind =~= front);
        assert(render::fragments_view(front) + render::fragments_view(behind)
            =~= render::fragments_view(front));
    } else {
        law_fragments(front, behind.drop_last());
        assert((front + behind).drop_last() =~= front + behind.drop_last());
        assert(render::fragments_view(front + behind) =~= render::fragments_view(front)
            + render::fragments_view(behind));
    }
}

/// Between two groups of parts stands the separator, as it does between the parts in them, and
/// nowhere else.
pub proof fn law_separated_parts(
    front: Seq<Seq<Glyph>>,
    behind: Seq<Seq<Glyph>>,
    separator: Seq<Glyph>,
)
    ensures
        front.len() == 0 ==> render::separated(front, separator).len() == 0,
        front.len() == 1 ==> render::separated(front, separator) == front[0],
        front.len() > 0 && behind.len() > 0 ==> render::separated(front + behind, separator)
            == render::separated(front, separator) + separator + render::separated(
            behind,
            separator,
        ),
    decreases behind.len(),
{
    if front.len() > 0 && behind.len() > 0 {
        let all = front + behind;
        assert(all.drop_last() =~= front + behind.drop_last());
        assert(all.last() == behind.last());
        if behind.len() == 1 {
            assert(front + behind.drop_last() =~= front);
        } else {
            law_separated_parts(front, behind.drop_last(), separator);
        }
        assert(render::separated(all, separator) =~= render::separated(front, separator) + separator
            + render::separated(behind, separator));
    }
}

/// How constants look that have no constants in them: null whatever type is expected, texts in
/// double and resources in single quotes, integers in decimal, and numbers as they are.
pub proof fn law_text_of_simple_constants(
    hint: Option<Seq<(PathOp, Seq<char>)>>,
    chars: Seq<char>,
    n: i32,
    number: FloatValue,
)
    ensures
        render::render(ConstantV::Null(hint)) == render::plain("null"@),
        render::render(ConstantV::String(chars)) == render::plain("\""@ + chars + "\""@),
        render::render(ConstantV::Resource(chars)) == render::plain("'"@ + chars + "'"@),
        render::render(ConstantV::Int(n)) == render::plain(text::decimal(n as int)),
        render::render(ConstantV::Float(number)) == seq![Glyph::Float(number)],
{
    assert(render::render(ConstantV::String(chars)) =~= render::plain("\""@ + chars + "\""@));
    assert(render::render(ConstantV::Resource(chars)) =~= render::plain("'"@ + chars + "'"@));
}

/// How a list looks: its items between `list(` and `)`, each its key, and its value after an
/// equals sign where there is one, with commas between them.
pub proof fn law_text_of_lists(
    items: Seq<(ConstantV, Option<ConstantV>)>,
    parts: Seq<Seq<Glyph>>,
)
    requires
        parts.len() == items.len(),
        forall|j: int|
            0 <= j < items.len() ==> #[trigger] parts[j] == (match items[j].1 {
                Some(value) => render::render(items[j].0) + render::plain(" = "@) + render::render(
                    value,
                ),
                None => render::render(items[j].0),
            }),
    ensures
        render::render(ConstantV::List(items)) == render::plain("list("@) + render::separated(
            parts,
            render::plain(", "@),
        ) + render::plain(")"@),
{
    let shown = render::render_items(items);
    assert forall|j: int| 0 <= j < items.len() implies shown[j] =~= #[trigger] parts[j] by {}
    assert(shown =~= parts);
}

/// How a call looks: the name of the function, and its arguments between parentheses, with commas
/// between them.
pub proof fn law_text_of_calls(
    const_fn: ConstFn,
    args: Seq<ConstantV>,
    parts: Seq<Seq<Glyph>>,
)
    requires
        parts.len() == args.len(),
        forall|j: int| 0 <= j < args.len() ==> #[trigger] parts[j] == render::render(args[j]),
    ensures
        render::render(ConstantV::Call(const_fn, args)) == render::plain(
            match const_fn {
                ConstFn::Icon => "icon"@,
                ConstFn::Matrix => "matrix"@,
                ConstFn::Newlist => "newlist"@,
            },
        ) + render::plain("("@) + render::separated(parts, render::plain(", "@)) + render::plain(
            ")"@,
        ),
{
    let shown = render::render_all(args);
    assert forall|j: int| 0 <= j < args.len() implies shown[j] =~= #[trigger] parts[j] by {}
    assert(shown =~= parts);
}

/// How functions and path operators are written.
pub proof fn law_names(const_fn: ConstFn, op: PathOp)
    ensures
        const_fn is Icon ==> render::const_fn_name(const_fn) == "icon"@,
        const_fn is Matrix ==> render::const_fn_name(const_fn) == "matrix"@,
        const_fn is Newlist ==> render::const_fn_name(const_fn) == "newlist"@,
        op is Slash ==> render::path_op_text(op) == "/"@,
        op is Dot ==> render::path_op_text(op) == "."@,
        op is Colon ==> render::path_op_text(op) == ":"@,
{
}

/// How a path looks: each segment after its operator.
pub proof fn law_text_of_paths(
    front: Seq<(PathOp, Seq<char>)>,
    behind: Seq<(PathOp, Seq<char>)>,
)
    ensures
        render::path_text(front + behind) == render::path_text(front) + render::path_text(behind),
        front.len() == 0 ==> render::path_text(front).len() == 0,
        front.len() == 1 ==> render::path_text(front) == (match front[0].0 {
            PathOp::Slash => "/"@,
            PathOp::Dot => "."@,
            PathOp::Colon => ":"@,
        }) + front[0].1,
    decreases behind.len(),
{
    if front.len() == 1 {
        assert(render::path_text(front.drop_last()) =~= seq![]);
        assert(render::path_text(front) =~= render::path_op_text(front[0].0) + front[0].1);
    }
    if behind.len() == 0 {
        assert(front + behind =~= front);
        assert(render::path_text(front) + render::path_text(behind) =~= render::path_text(front));
    } else {
        law_text_of_paths(front, behind.drop_last());
        assert((front + behind).drop_last() =~= front + behind.drop_last());
        assert(render::path_text(front + behind) =~= render::path_text(front) + render::path_text(
            behind,
        ));
    }
}

/// How a prefab looks: its path, and where it has overrides, these in braces, each its name and
/// its value with an equals sign between, and semicolons between them.
pub proof fn law_text_of_prefabs(prefab: PrefabV<ConstantV>, parts: Seq<Seq<Glyph>>)
    requires
        parts.len() == prefab.vars.len(),
        forall|j: int|
            0 <= j < prefab.vars.len() ==> #[trigger] parts[j] == render::plain(
                prefab.vars[j].0 + " = "@,
            ) + render::render(prefab.vars[j].1),
    ensures
        render::render(ConstantV::Prefab(prefab)) == render::render_prefab(prefab),
        prefab.vars.len() == 0 ==> render::render_prefab(prefab) == render::plain(
            render::path_text(prefab.path),
        ),
        prefab.vars.len() > 0 ==> render::render_prefab(prefab) == render::plain(
            render::path_text(prefab.path) + " {"@,
        ) + render::separated(parts, render::plain("; "@)) + render::plain("}"@),
{
    let shown = render::render_vars(prefab.vars);
    assert forall|j: int| 0 <= j < prefab.vars.len() implies shown[j] =~= #[trigger] parts[j] by {
        assert(render::plain(prefab.vars[j].0 + " = "@) =~= render::plain(prefab.vars[j].0)
            + render::plain(" = "@));
    }
    assert(shown =~= parts);
    assert(render::plain(render::path_text(prefab.path) + " {"@) =~= render::plain(
        render::path_text(prefab.path),
    ) + render::plain(" {"@));
    if prefab.vars.len() == 0 {
        assert(render::render_prefab(prefab) =~= render::plain(render::path_text(prefab.path)));
    } else {
        assert(render::render_prefab(prefab) =~= render::plain(
            render::path_text(prefab.path) + " {"@,
        ) + render::separated(parts, render::plain("; "@)) + render::plain("}"@));
    }
}

/// How a `new` expression looks: `new`, then after a space its type, if one is given, then its
/// arguments between parentheses, if it has any list of them, with commas between them.
pub proof fn law_text_of_new(
    type_: NewTypeV<ConstantV>,
    args: Option<Seq<ConstantV>>,
    parts: Seq<Seq<Glyph>>,
)
    requires
        args matches Some(args) ==> parts.len() == args.len() && forall|j: int|
            0 <= j < args.len() ==> #[trigger] parts[j] == render::render(args[j]),
    ensures
        ({
            let shown_type = match type_ {
                NewTypeV::Implicit => render::plain("new"@),
                NewTypeV::Prefab(prefab) => render::plain("new "@) + render::render_prefab(prefab),
                NewTypeV::Ident(ident) => render::plain("new "@ + ident),
            };
            render::render(ConstantV::New { type_, args }) == (match args {
                Some(_) => shown_type + render::plain("("@) + render::separated(
                    parts,
                    render::plain(", "@),
                ) + render::plain(")"@),
                None => shown_type,
            })
        }),
{
    reveal_strlit("new");
    reveal_strlit(" ");
    reveal_strlit("new ");
    assert("new "@ =~= "new"@ + " "@);
    let shown_type = match type_ {
        NewTypeV::Implicit => render::plain("new"@),
        NewTypeV::Prefab(prefab) => render::plain("new "@) + render::render_prefab(prefab),
        NewTypeV::Ident(ident) => render::plain("new "@ + ident),
    };
    assert(render::plain("new "@) =~= render::plain("new"@) + render::plain(" "@));
    assert(render::render_new_type(type_) =~= shown_type) by {
        if let NewTypeV::Ident(ident) = type_ {
            assert(render::plain("new "@ + ident) =~= render::plain("new "@) + render::plain(
                ident,
            ));
        }
    }
    let all = render::render(ConstantV::New { type_, args });
    match args {
        Some(args) => {
            let shown = render::render_all(args);
            assert forall|j: int| 0 <= j < args.len() implies shown[j] =~= #[trigger] parts[j] by {}
            assert(shown =~= parts);
            assert(all =~= shown_type + render::plain("("@) + render::separated(
                parts,
                render::plain(", "@),
            ) + render::plain(")"@));
        },
        None => {
            assert(all =~= shown_type);
        },
    }
}

/// What error messages begin with, and the names in them end them.
pub proof fn law_messages(name: Seq<char>)
    ensures
        error::headline(ErrorKindV::RecursiveReference(name)) == "recursive constant reference: "@
            + name,
        error::headline(ErrorKindV::NonConstVariable(name)) == "non-const variable: "@ + name,
        error::headline(ErrorKindV::NonStaticVariable(name)) == "non-static variable: "@ + name,
        error::headline(ErrorKindV::FunctionCall(name)) == "non-constant function call: "@ + name,
        error::headline(ErrorKindV::UnknownTypepath(name)) == "unknown typepath "@ + name,
        error::headline(ErrorKindV::UnknownVariable(name)) == "unknown variable: "@ + name,
        error::headline(ErrorKindV::Syntax(name)) == name,
        error::headline(ErrorKindV::NotAnExpression) == "not an expression"@,
        error::headline(ErrorKindV::AugmentedAssignment) == "non-constant augmented assignment"@,
        error::headline(ErrorKindV::NewExpression) == "non-constant new expression"@,
        error::headline(ErrorKindV::MalformedRgb) == "malformed rgb() call"@,
        error::headline(ErrorKindV::Undeclared) == "oh no"@,
        forall|kind: ErrorKindV|
            kind is Followers ==> #[trigger] error::headline(kind)
                == "non-constant expression followers: "@,
        forall|kind: ErrorKindV|
            kind is UnaryOperation ==> #[trigger] error::headline(kind)
                == "non-constant unary operation: "@,
        forall|kind: ErrorKindV|
            kind is BinaryOperation ==> #[trigger] error::headline(kind)
                == "non-constant binary operation: "@,
{
}

/// What a user is told of a note: nothing of an initialiser that looks as the constant it folds
/// to, otherwise both, or only the initialiser where it failed, and a line between them and what
/// comes next.
pub proof fn law_told_notes(
    ty: int,
    name: Seq<char>,
    source: Seq<char>,
    shown: Seq<Glyph>,
    written: Seq<char>,
)
    ensures
        objtree::told(NoteV::Searching(ty), written) == seq![
            "searching type #"@ + text::decimal(ty),
        ],
        objtree::told(NoteV::IdentAsListKey(name), written) == seq![
            "WARNING: ident used as list key: "@ + name,
        ],
        source == written ==> objtree::told(NoteV::Folded(source, Some(shown)), written).len() == 0,
        source != written ==> objtree::told(NoteV::Folded(source, Some(shown)), written) == seq![
            source,
            written,
            Seq::<char>::empty(),
        ],
        objtree::told(NoteV::Folded(source, None), written) == seq![source, Seq::<char>::empty()],
{
}

} // verus!
