//! What texts a program is read from.
//!
//! A program is spelled as a sequence of words, numbers and marks. Whatever
//! text has these as its tokens, with blanks wherever it likes, is read as
//! that program. The declarations may stand in any order: reading collects
//! the joints, the links and the constraints, each in the order in which they
//! stand.

use crate::dsl::ast::{
    AngleUnit, AxisView, ConstraintDeclView, JointDeclView, LinkDeclView, ProgramView,
    VectorLiteralView,
};
use crate::dsl::lexer::{
    in_class, is_digit, is_letter, is_text, number_end, run_end, spanning, text_of, token_at,
    tokens, Class, Token, TokenKind, COMMA, EQUALS, LBRACE, LPAREN, MINUS, POINT, RBRACE, RPAREN,
};
use crate::dsl::parser::{
    constraint_at, direction_at, distance_at, empty_program, fixed_angle_at, fixed_at, group_at,
    is_word, more_names_at, pair_at, parameter_at, plane_at, prismatic_link_at, parsed,
    prismatic_vector_at, program_of, revolute_at, statement_at, statements_at, vector_at,
    with_statement, Expected, ParseError, StatementView,
};
use vstd::prelude::*;

verus! {

/// A token as it is spelled: its kind, and its characters if it is a name or
/// a number.
pub struct Lexeme {
    pub kind: TokenKind,
    pub text: Seq<char>,
}

/// A name.
pub open spec fn word(text: Seq<char>) -> Lexeme {
    Lexeme { kind: TokenKind::Ident, text }
}

/// A number.
pub open spec fn numeral(text: Seq<char>) -> Lexeme {
    Lexeme { kind: TokenKind::Number, text }
}

/// A punctuation mark.
pub open spec fn mark(kind: TokenKind) -> Lexeme {
    Lexeme { kind, text: Seq::empty() }
}

/// The token is of the kind of the lexeme and, if it is a name or a number,
/// has its characters.
pub open spec fn spells(s: Seq<u8>, t: Token, l: Lexeme) -> bool {
    t.kind == l.kind && (is_text(l.kind) ==> text_of(s, t) == l.text)
}

/// The tokens from `i` on are the lexemes, and at least one token follows.
pub open spec fn reads(s: Seq<u8>, toks: Seq<Token>, i: int, lexemes: Seq<Lexeme>) -> bool {
    &&& 0 <= i
    &&& i + lexemes.len() < toks.len()
    &&& forall|k: int|
        0 <= k < lexemes.len() ==> spells(s, toks[i + k], #[trigger] lexemes[k])
}

/// Each of the tokens that are read as lexemes spells its lexeme.
pub proof fn lemma_reads_at(s: Seq<u8>, toks: Seq<Token>, i: int, lexemes: Seq<Lexeme>, k: int)
    requires
        reads(s, toks, i, lexemes),
        0 <= k < lexemes.len(),
    ensures
        spells(s, toks[i + k], lexemes[k]),
        0 <= i + k < toks.len() - 1,
{
}

/// Tokens that are the lexemes of two sequences, one after the other, are
/// those of the first and then those of the second.
pub proof fn lemma_reads_split(
    s: Seq<u8>,
    toks: Seq<Token>,
    i: int,
    first: Seq<Lexeme>,
    second: Seq<Lexeme>,
)
    requires
        reads(s, toks, i, first + second),
    ensures
        reads(s, toks, i, first),
        reads(s, toks, i + first.len(), second),
{
    let both = first + second;
    assert forall|k: int| 0 <= k < first.len() implies spells(
        s,
        toks[i + k],
        #[trigger] first[k],
    ) by {
        assert(both[k] == first[k]);
    }
    assert forall|k: int| 0 <= k < second.len() implies spells(
        s,
        toks[i + first.len() + k],
        #[trigger] second[k],
    ) by {
        assert(both[first.len() + k] == second[k]);
    }
}

/// Three numbers in parentheses, with commas between them.
pub open spec fn spell_vector(v: VectorLiteralView) -> Seq<Lexeme> {
    seq![
        mark(TokenKind::LParen),
        numeral(v.x),
        mark(TokenKind::Comma),
        numeral(v.y),
        mark(TokenKind::Comma),
        numeral(v.z),
        mark(TokenKind::RParen),
    ]
}

/// The letter of an axis, or a vector.
pub open spec fn spell_axis(axis: AxisView) -> Seq<Lexeme> {
    match axis {
        AxisView::X => seq![word("X"@)],
        AxisView::Y => seq![word("Y"@)],
        AxisView::Z => seq![word("Z"@)],
        AxisView::Vector(v) => spell_vector(v),
    }
}

/// A comma and a name, for each of the names.
pub open spec fn spell_more_names(names: Seq<Seq<char>>) -> Seq<Lexeme>
    decreases names.len(),
{
    if names.len() == 0 {
        Seq::empty()
    } else {
        seq![mark(TokenKind::Comma), word(names[0])] + spell_more_names(names.drop_first())
    }
}

/// The names in parentheses, with commas between them.
pub open spec fn spell_group(names: Seq<Seq<char>>) -> Seq<Lexeme> {
    seq![mark(TokenKind::LParen), word(names[0])] + spell_more_names(names.drop_first()) + seq![
        mark(TokenKind::RParen),
    ]
}

/// Two names in parentheses.
pub open spec fn spell_pair(a: Seq<char>, b: Seq<char>) -> Seq<Lexeme> {
    seq![
        mark(TokenKind::LParen),
        word(a),
        mark(TokenKind::Comma),
        word(b),
        mark(TokenKind::RParen),
    ]
}

/// The name of a parameter and an equals sign.
pub open spec fn spell_parameter(name: Seq<char>) -> Seq<Lexeme> {
    seq![word(name), mark(TokenKind::Equals)]
}

/// The index after `n` tokens from `i`.
pub open spec fn after(i: int, n: nat) -> usize {
    (i + n) as usize
}

/// What spells a vector is read as that vector. The lemmas that follow say
/// the same of the other parts of the grammar.
pub proof fn lemma_vector_reads(s: Seq<u8>, toks: Seq<Token>, i: int, v: VectorLiteralView)
    requires
        toks.len() <= usize::MAX,
        reads(s, toks, i, spell_vector(v)),
    ensures
        vector_at(s, toks, i as usize) == Ok::<(VectorLiteralView, usize), ParseError>(
            (v, after(i, 7)),
        ),
{
    let l = spell_vector(v);
    lemma_reads_at(s, toks, i, l, 0);
    lemma_reads_at(s, toks, i, l, 1);
    lemma_reads_at(s, toks, i, l, 2);
    lemma_reads_at(s, toks, i, l, 3);
    lemma_reads_at(s, toks, i, l, 4);
    lemma_reads_at(s, toks, i, l, 5);
    lemma_reads_at(s, toks, i, l, 6);
}

/// The letters of the axes are three different words.
pub proof fn lemma_axis_letters()
    ensures
        "X"@ != "Y"@,
        "X"@ != "Z"@,
        "Y"@ != "Z"@,
{
    reveal_strlit("X");
    reveal_strlit("Y");
    reveal_strlit("Z");
    assert("X"@[0] == 'X');
    assert("Y"@[0] == 'Y');
    assert("Z"@[0] == 'Z');
}

pub proof fn lemma_axis_reads(s: Seq<u8>, toks: Seq<Token>, i: int, axis: AxisView)
    requires
        toks.len() <= usize::MAX,
        reads(s, toks, i, spell_axis(axis)),
    ensures
        direction_at(s, toks, i as usize) == Ok::<(AxisView, usize), ParseError>(
            (axis, after(i, spell_axis(axis).len())),
        ),
{
    lemma_axis_letters();
    lemma_reads_at(s, toks, i, spell_axis(axis), 0);
    match axis {
        AxisView::Vector(v) => {
            lemma_vector_reads(s, toks, i, v);
        },
        _ => {},
    }
}

/// Names after commas are read up to the first token that is no comma.
pub proof fn lemma_more_names_read(
    s: Seq<u8>,
    toks: Seq<Token>,
    i: int,
    found: Seq<Seq<char>>,
    names: Seq<Seq<char>>,
)
    requires
        toks.len() <= usize::MAX,
        reads(s, toks, i, spell_more_names(names)),
        toks[i + spell_more_names(names).len()].kind != TokenKind::Comma,
    ensures
        spell_more_names(names).len() == 2 * names.len(),
        more_names_at(s, toks, i as usize, found) == Ok::<(Seq<Seq<char>>, usize), ParseError>(
            (found + names, after(i, 2 * names.len())),
        ),
    decreases names.len(),
{
    if names.len() == 0 {
        assert(found + names =~= found);
    } else {
        let head = seq![mark(TokenKind::Comma), word(names[0])];
        let tail = spell_more_names(names.drop_first());
        lemma_reads_split(s, toks, i, head, tail);
        lemma_reads_at(s, toks, i, head, 0);
        lemma_reads_at(s, toks, i, head, 1);
        lemma_more_names_read(s, toks, i + 2, found.push(names[0]), names.drop_first());
        assert(found.push(names[0]) + names.drop_first() =~= found + names);
    }
}

pub proof fn lemma_group_reads(s: Seq<u8>, toks: Seq<Token>, i: int, names: Seq<Seq<char>>)
    requires
        toks.len() <= usize::MAX,
        names.len() > 0,
        reads(s, toks, i, spell_group(names)),
    ensures
        spell_group(names).len() == 2 * names.len() + 1,
        group_at(s, toks, i as usize) == Ok::<(Seq<Seq<char>>, usize), ParseError>(
            (names, after(i, 2 * names.len() + 1)),
        ),
{
    let head = seq![mark(TokenKind::LParen), word(names[0])];
    let middle = spell_more_names(names.drop_first());
    let tail = seq![mark(TokenKind::RParen)];
    lemma_reads_split(s, toks, i, head + middle, tail);
    lemma_reads_split(s, toks, i, head, middle);
    lemma_reads_at(s, toks, i, head, 0);
    lemma_reads_at(s, toks, i, head, 1);
    lemma_reads_at(s, toks, i + 2 + middle.len(), tail, 0);
    lemma_more_names_read(s, toks, i + 2, seq![names[0]], names.drop_first());
    assert(seq![names[0]] + names.drop_first() =~= names);
}

pub proof fn lemma_pair_reads(s: Seq<u8>, toks: Seq<Token>, i: int, a: Seq<char>, b: Seq<char>)
    requires
        toks.len() <= usize::MAX,
        reads(s, toks, i, spell_pair(a, b)),
    ensures
        pair_at(s, toks, i as usize) == Ok::<((Seq<char>, Seq<char>), usize), ParseError>(
            ((a, b), after(i, 5)),
        ),
{
    let l = spell_pair(a, b);
    lemma_reads_at(s, toks, i, l, 0);
    lemma_reads_at(s, toks, i, l, 1);
    lemma_reads_at(s, toks, i, l, 2);
    lemma_reads_at(s, toks, i, l, 3);
    lemma_reads_at(s, toks, i, l, 4);
}

pub proof fn lemma_parameter_reads(
    s: Seq<u8>,
    toks: Seq<Token>,
    i: int,
    name: Seq<char>,
    expected: Expected,
)
    requires
        toks.len() <= usize::MAX,
        reads(s, toks, i, spell_parameter(name)),
    ensures
        parameter_at(s, toks, i as usize, name, expected) == Ok::<usize, ParseError>(after(i, 2)),
{
    let l = spell_parameter(name);
    lemma_reads_at(s, toks, i, l, 0);
    lemma_reads_at(s, toks, i, l, 1);
}

/// The words with which a declaration begins, and the word `point`.
pub open spec fn reserved() -> Seq<Seq<char>> {
    seq![
        "joint"@,
        "link"@,
        "distance"@,
        "fixed"@,
        "plane"@,
        "prismatic_vector"@,
        "prismatic_link"@,
        "fixed_angle"@,
        "revolute"@,
        "point"@,
    ]
}

/// A declaration begins with the word.
pub open spec fn begins_declaration(text: Seq<char>) -> bool {
    exists|n: int| 0 <= n < 9 && text == #[trigger] reserved()[n]
}

/// The reserved words are all different, and so are the units.
pub proof fn lemma_reserved_words()
    ensures
        forall|m: int, n: int|
            0 <= m < n < 10 ==> #[trigger] reserved()[m] != #[trigger] reserved()[n],
        "rad"@ != "deg"@,
        "rad"@ != "degrees"@,
{
    reveal_strlit("joint");
    reveal_strlit("link");
    reveal_strlit("distance");
    reveal_strlit("fixed");
    reveal_strlit("plane");
    reveal_strlit("prismatic_vector");
    reveal_strlit("prismatic_link");
    reveal_strlit("fixed_angle");
    reveal_strlit("revolute");
    reveal_strlit("point");
    reveal_strlit("rad");
    reveal_strlit("deg");
    reveal_strlit("degrees");
    assert("joint"@[0] == 'j');
    assert("fixed"@[0] == 'f');
    assert("plane"@[0] == 'p' && "plane"@[1] == 'l');
    assert("point"@[0] == 'p' && "point"@[1] == 'o');
    assert("distance"@[0] == 'd');
    assert("revolute"@[0] == 'r');
    assert("rad"@[0] == 'r');
    assert("deg"@[0] == 'd');
    let r = reserved();
    assert(r[0].len() == 5 && r[1].len() == 4 && r[2].len() == 8 && r[3].len() == 5 && r[4].len()
        == 5 && r[5].len() == 16 && r[6].len() == 14 && r[7].len() == 11 && r[8].len() == 8
        && r[9].len() == 5);
    assert forall|m: int, n: int| 0 <= m < n < 10 implies #[trigger] r[m] != #[trigger] r[n] by {
        if r[m].len() == r[n].len() {
            if r[m].len() == 5 {
                assert(r[0][0] == 'j' && r[3][0] == 'f' && r[4][0] == 'p' && r[9][0] == 'p');
                assert(r[4][1] == 'l' && r[9][1] == 'o');
            } else {
                assert(r[2][0] == 'd' && r[8][0] == 'r');
            }
        }
    }
}

/// What stands after a declaration: the first word of the next, or the
/// brace that closes the program.
pub open spec fn boundary(s: Seq<u8>, toks: Seq<Token>, j: int) -> bool {
    &&& 0 <= j < toks.len()
    &&& toks[j].kind == TokenKind::RBrace || (toks[j].kind == TokenKind::Ident
        && begins_declaration(text_of(s, toks[j])))
}

/// At a boundary stands no comma and no word `point`.
pub proof fn lemma_boundary(s: Seq<u8>, toks: Seq<Token>, j: int)
    requires
        boundary(s, toks, j),
        toks.len() <= usize::MAX,
    ensures
        toks[j].kind != TokenKind::Comma,
        !is_word(s, toks, j as usize, "point"@),
{
    lemma_reserved_words();
    if toks[j].kind == TokenKind::Ident {
        let n = choose|n: int| 0 <= n < 9 && text_of(s, toks[j]) == #[trigger] reserved()[n];
        assert(reserved()[n] != reserved()[9]);
    }
}

/// A joint: the word `joint`, its name and its coordinates, with commas.
pub open spec fn spell_joint(joint: JointDeclView) -> Seq<Lexeme> {
    let front = seq![
        word("joint"@),
        word(joint.name),
        mark(TokenKind::Comma),
        numeral(joint.x),
        mark(TokenKind::Comma),
        numeral(joint.y),
    ];
    match joint.z {
        Some(z) => front + seq![mark(TokenKind::Comma), numeral(z)],
        None => front,
    }
}

/// A link: the word `link`, its name and its two joints, with commas.
pub open spec fn spell_link(link: LinkDeclView) -> Seq<Lexeme> {
    seq![
        word("link"@),
        word(link.name),
        mark(TokenKind::Comma),
        word(link.joint_a),
        mark(TokenKind::Comma),
        word(link.joint_b),
    ]
}

/// The unit of an angle. It is always written.
pub open spec fn spell_unit(unit: AngleUnit) -> Lexeme {
    match unit {
        AngleUnit::Degrees => word("deg"@),
        AngleUnit::Radians => word("rad"@),
    }
}

/// The point of a plane, if it has one.
pub open spec fn spell_point(point: Option<VectorLiteralView>) -> Seq<Lexeme> {
    match point {
        Some(p) => spell_parameter("point"@) + spell_vector(p),
        None => Seq::empty(),
    }
}

/// The first word of a constraint: the index of its kind among the reserved words.
pub open spec fn constraint_word(constraint: ConstraintDeclView) -> int {
    match constraint {
        ConstraintDeclView::Distance { .. } => 2,
        ConstraintDeclView::Fixed { .. } => 3,
        ConstraintDeclView::Plane { .. } => 4,
        ConstraintDeclView::PrismaticVector { .. } => 5,
        ConstraintDeclView::PrismaticLink { .. } => 6,
        ConstraintDeclView::FixedAngle { .. } => 7,
        ConstraintDeclView::Revolute { .. } => 8,
    }
}

/// What follows the first word of a constraint.
pub open spec fn spell_constraint_body(constraint: ConstraintDeclView) -> Seq<Lexeme> {
    match constraint {
        ConstraintDeclView::Distance { a, b, value } => spell_pair(a, b) + seq![
            mark(TokenKind::Equals),
            numeral(value),
        ],
        ConstraintDeclView::Fixed { joints } => spell_group(joints),
        ConstraintDeclView::Plane { joints, normal, point } => spell_group(joints)
            + spell_parameter("normal"@) + spell_axis(normal) + spell_point(point),
        ConstraintDeclView::PrismaticVector { joints, axis, origin } => spell_group(joints)
            + spell_parameter("axis"@) + spell_axis(axis) + spell_parameter("origin"@)
            + spell_vector(origin),
        ConstraintDeclView::PrismaticLink { joints, link, origin } => spell_group(joints)
            + spell_parameter("link"@) + seq![word(link)] + spell_parameter("origin"@)
            + spell_vector(origin),
        ConstraintDeclView::FixedAngle { joint_a, pivot, joint_c, angle, unit } => seq![
            mark(TokenKind::LParen),
            word(joint_a),
            mark(TokenKind::Comma),
            word(pivot),
            mark(TokenKind::Comma),
            word(joint_c),
            mark(TokenKind::RParen),
            mark(TokenKind::Equals),
            numeral(angle),
            spell_unit(unit),
        ],
        ConstraintDeclView::Revolute { joint_a, joint_b, axis, min_angle, max_angle } => spell_pair(
            joint_a,
            joint_b,
        ) + spell_parameter("axis"@) + spell_axis(axis) + spell_parameter("min"@) + seq![
            numeral(min_angle),
        ] + spell_parameter("max"@) + seq![numeral(max_angle)],
    }
}

/// A constraint: the word of its kind, and what follows it.
pub open spec fn spell_constraint(constraint: ConstraintDeclView) -> Seq<Lexeme> {
    seq![word(reserved()[constraint_word(constraint)])] + spell_constraint_body(constraint)
}

/// A declaration.
pub open spec fn spell_statement(statement: StatementView) -> Seq<Lexeme> {
    match statement {
        StatementView::Joint(joint) => spell_joint(joint),
        StatementView::Link(link) => spell_link(link),
        StatementView::Constraint(constraint) => spell_constraint(constraint),
    }
}

/// A constraint that lists joints lists at least one.
pub open spec fn has_joints(statement: StatementView) -> bool {
    match statement {
        StatementView::Constraint(ConstraintDeclView::Fixed { joints }) => joints.len() > 0,
        StatementView::Constraint(ConstraintDeclView::Plane { joints, .. }) => joints.len() > 0,
        StatementView::Constraint(ConstraintDeclView::PrismaticVector { joints, .. }) => joints.len()
            > 0,
        StatementView::Constraint(ConstraintDeclView::PrismaticLink { joints, .. }) => joints.len()
            > 0,
        _ => true,
    }
}

pub proof fn lemma_joint_reads(s: Seq<u8>, toks: Seq<Token>, i: int, joint: JointDeclView)
    requires
        toks.len() <= usize::MAX,
        reads(s, toks, i, spell_joint(joint)),
        boundary(s, toks, i + spell_joint(joint).len()),
    ensures
        statement_at(s, toks, i as usize) == Ok::<(StatementView, usize), ParseError>(
            (StatementView::Joint(joint), after(i, spell_joint(joint).len())),
        ),
{
    reveal(statement_at);
    let l = spell_joint(joint);
    lemma_reads_at(s, toks, i, l, 0);
    lemma_reads_at(s, toks, i, l, 1);
    lemma_reads_at(s, toks, i, l, 2);
    lemma_reads_at(s, toks, i, l, 3);
    lemma_reads_at(s, toks, i, l, 4);
    lemma_reads_at(s, toks, i, l, 5);
    match joint.z {
        Some(z) => {
            lemma_reads_at(s, toks, i, l, 6);
            lemma_reads_at(s, toks, i, l, 7);
        },
        None => {
            lemma_boundary(s, toks, i + 6);
        },
    }
}

pub proof fn lemma_link_reads(s: Seq<u8>, toks: Seq<Token>, i: int, link: LinkDeclView)
    requires
        toks.len() <= usize::MAX,
        reads(s, toks, i, spell_link(link)),
    ensures
        statement_at(s, toks, i as usize) == Ok::<(StatementView, usize), ParseError>(
            (StatementView::Link(link), after(i, 6)),
        ),
{
    reveal(statement_at);
    lemma_reserved_words();
    assert(reserved()[0] != reserved()[1]);
    let l = spell_link(link);
    lemma_reads_at(s, toks, i, l, 0);
    lemma_reads_at(s, toks, i, l, 1);
    lemma_reads_at(s, toks, i, l, 2);
    lemma_reads_at(s, toks, i, l, 3);
    lemma_reads_at(s, toks, i, l, 4);
    lemma_reads_at(s, toks, i, l, 5);
}

pub proof fn lemma_distance_reads(
    s: Seq<u8>,
    toks: Seq<Token>,
    i: int,
    a: Seq<char>,
    b: Seq<char>,
    value: Seq<char>,
)
    requires
        toks.len() <= usize::MAX,
        reads(s, toks, i, spell_constraint_body(ConstraintDeclView::Distance { a, b, value })),
    ensures
        distance_at(s, toks, i as usize) == Ok::<(ConstraintDeclView, usize), ParseError>(
            (
                ConstraintDeclView::Distance { a, b, value },
                after(i, spell_constraint_body(ConstraintDeclView::Distance { a, b, value }).len()),
            ),
        ),
{
    let tail = seq![mark(TokenKind::Equals), numeral(value)];
    lemma_reads_split(s, toks, i, spell_pair(a, b), tail);
    lemma_pair_reads(s, toks, i, a, b);
    lemma_reads_at(s, toks, i + 5, tail, 0);
    lemma_reads_at(s, toks, i + 5, tail, 1);
}

pub proof fn lemma_fixed_reads(s: Seq<u8>, toks: Seq<Token>, i: int, joints: Seq<Seq<char>>)
    requires
        toks.len() <= usize::MAX,
        joints.len() > 0,
        reads(s, toks, i, spell_group(joints)),
    ensures
        fixed_at(s, toks, i as usize) == Ok::<(ConstraintDeclView, usize), ParseError>(
            (ConstraintDeclView::Fixed { joints }, after(i, spell_group(joints).len())),
        ),
{
    lemma_group_reads(s, toks, i, joints);
}

pub proof fn lemma_plane_reads(
    s: Seq<u8>,
    toks: Seq<Token>,
    i: int,
    joints: Seq<Seq<char>>,
    normal: AxisView,
    point: Option<VectorLiteralView>,
)
    requires
        toks.len() <= usize::MAX,
        joints.len() > 0,
        reads(
            s,
            toks,
            i,
            spell_constraint_body(ConstraintDeclView::Plane { joints, normal, point }),
        ),
        boundary(
            s,
            toks,
            i + spell_constraint_body(ConstraintDeclView::Plane { joints, normal, point }).len(),
        ),
    ensures
        plane_at(s, toks, i as usize) == Ok::<(ConstraintDeclView, usize), ParseError>(
            (
                ConstraintDeclView::Plane { joints, normal, point },
                after(
                    i,
                    spell_constraint_body(
                        ConstraintDeclView::Plane { joints, normal, point },
                    ).len(),
                ),
            ),
        ),
{
    let group = spell_group(joints);
    let parameter = spell_parameter("normal"@);
    let axis = spell_axis(normal);
    let tail = spell_point(point);
    lemma_reads_split(s, toks, i, group + parameter + axis, tail);
    lemma_reads_split(s, toks, i, group + parameter, axis);
    lemma_reads_split(s, toks, i, group, parameter);
    lemma_group_reads(s, toks, i, joints);
    let i1 = i + group.len();
    lemma_parameter_reads(s, toks, i1, "normal"@, Expected::Normal);
    let i2 = i1 + 2;
    lemma_axis_reads(s, toks, i2, normal);
    let i3 = i2 + axis.len();
    match point {
        Some(p) => {
            lemma_reads_split(s, toks, i3, spell_parameter("point"@), spell_vector(p));
            lemma_reads_at(s, toks, i3, spell_parameter("point"@), 0);
            lemma_reads_at(s, toks, i3, spell_parameter("point"@), 1);
            lemma_vector_reads(s, toks, i3 + 2, p);
        },
        None => {
            lemma_boundary(s, toks, i3);
        },
    }
}

pub proof fn lemma_prismatic_vector_reads(
    s: Seq<u8>,
    toks: Seq<Token>,
    i: int,
    joints: Seq<Seq<char>>,
    axis: AxisView,
    origin: VectorLiteralView,
)
    requires
        toks.len() <= usize::MAX,
        joints.len() > 0,
        reads(
            s,
            toks,
            i,
            spell_constraint_body(ConstraintDeclView::PrismaticVector { joints, axis, origin }),
        ),
    ensures
        prismatic_vector_at(s, toks, i as usize) == Ok::<(ConstraintDeclView, usize), ParseError>(
            (
                ConstraintDeclView::PrismaticVector { joints, axis, origin },
                after(
                    i,
                    spell_constraint_body(
                        ConstraintDeclView::PrismaticVector { joints, axis, origin },
                    ).len(),
                ),
            ),
        ),
{
    let group = spell_group(joints);
    let first = spell_parameter("axis"@);
    let direction = spell_axis(axis);
    let second = spell_parameter("origin"@);
    let vector = spell_vector(origin);
    lemma_reads_split(s, toks, i, group + first + direction + second, vector);
    lemma_reads_split(s, toks, i, group + first + direction, second);
    lemma_reads_split(s, toks, i, group + first, direction);
    lemma_reads_split(s, toks, i, group, first);
    lemma_group_reads(s, toks, i, joints);
    let i1 = i + group.len();
    lemma_parameter_reads(s, toks, i1, "axis"@, Expected::Axis);
    lemma_axis_reads(s, toks, i1 + 2, axis);
    let i3 = i1 + 2 + direction.len();
    lemma_parameter_reads(s, toks, i3, "origin"@, Expected::Origin);
    lemma_vector_reads(s, toks, i3 + 2, origin);
}

pub proof fn lemma_prismatic_link_reads(
    s: Seq<u8>,
    toks: Seq<Token>,
    i: int,
    joints: Seq<Seq<char>>,
    link: Seq<char>,
    origin: VectorLiteralView,
)
    requires
        toks.len() <= usize::MAX,
        joints.len() > 0,
        reads(
            s,
            toks,
            i,
            spell_constraint_body(ConstraintDeclView::PrismaticLink { joints, link, origin }),
        ),
    ensures
        prismatic_link_at(s, toks, i as usize) == Ok::<(ConstraintDeclView, usize), ParseError>(
            (
                ConstraintDeclView::PrismaticLink { joints, link, origin },
                after(
                    i,
                    spell_constraint_body(
                        ConstraintDeclView::PrismaticLink { joints, link, origin },
                    ).len(),
                ),
            ),
        ),
{
    let group = spell_group(joints);
    let first = spell_parameter("link"@);
    let name = seq![word(link)];
    let second = spell_parameter("origin"@);
    let vector = spell_vector(origin);
    lemma_reads_split(s, toks, i, group + first + name + second, vector);
    lemma_reads_split(s, toks, i, group + first + name, second);
    lemma_reads_split(s, toks, i, group + first, name);
    lemma_reads_split(s, toks, i, group, first);
    lemma_group_reads(s, toks, i, joints);
    let i1 = i + group.len();
    lemma_parameter_reads(s, toks, i1, "link"@, Expected::Link);
    lemma_reads_at(s, toks, i1 + 2, name, 0);
    lemma_parameter_reads(s, toks, i1 + 3, "origin"@, Expected::Origin);
    lemma_vector_reads(s, toks, i1 + 5, origin);
}

pub proof fn lemma_fixed_angle_reads(
    s: Seq<u8>,
    toks: Seq<Token>,
    i: int,
    joint_a: Seq<char>,
    pivot: Seq<char>,
    joint_c: Seq<char>,
    angle: Seq<char>,
    unit: AngleUnit,
)
    requires
        toks.len() <= usize::MAX,
        reads(
            s,
            toks,
            i,
            spell_constraint_body(
                ConstraintDeclView::FixedAngle { joint_a, pivot, joint_c, angle, unit },
            ),
        ),
    ensures
        fixed_angle_at(s, toks, i as usize) == Ok::<(ConstraintDeclView, usize), ParseError>(
            (
                ConstraintDeclView::FixedAngle { joint_a, pivot, joint_c, angle, unit },
                after(
                    i,
                    spell_constraint_body(
                        ConstraintDeclView::FixedAngle { joint_a, pivot, joint_c, angle, unit },
                    ).len(),
                ),
            ),
        ),
{
    lemma_reserved_words();
    let l = seq![
        mark(TokenKind::LParen),
        word(joint_a),
        mark(TokenKind::Comma),
        word(pivot),
        mark(TokenKind::Comma),
        word(joint_c),
        mark(TokenKind::RParen),
        mark(TokenKind::Equals),
        numeral(angle),
        spell_unit(unit),
    ];
    lemma_reads_at(s, toks, i, l, 0);
    lemma_reads_at(s, toks, i, l, 1);
    lemma_reads_at(s, toks, i, l, 2);
    lemma_reads_at(s, toks, i, l, 3);
    lemma_reads_at(s, toks, i, l, 4);
    lemma_reads_at(s, toks, i, l, 5);
    lemma_reads_at(s, toks, i, l, 6);
    lemma_reads_at(s, toks, i, l, 7);
    lemma_reads_at(s, toks, i, l, 8);
    lemma_reads_at(s, toks, i, l, 9);
}

pub proof fn lemma_revolute_reads(
    s: Seq<u8>,
    toks: Seq<Token>,
    i: int,
    joint_a: Seq<char>,
    joint_b: Seq<char>,
    axis: AxisView,
    min_angle: Seq<char>,
    max_angle: Seq<char>,
)
    requires
        toks.len() <= usize::MAX,
        reads(
            s,
            toks,
            i,
            spell_constraint_body(
                ConstraintDeclView::Revolute { joint_a, joint_b, axis, min_angle, max_angle },
            ),
        ),
    ensures
        revolute_at(s, toks, i as usize) == Ok::<(ConstraintDeclView, usize), ParseError>(
            (
                ConstraintDeclView::Revolute { joint_a, joint_b, axis, min_angle, max_angle },
                after(
                    i,
                    spell_constraint_body(
                        ConstraintDeclView::Revolute {
                            joint_a,
                            joint_b,
                            axis,
                            min_angle,
                            max_angle,
                        },
                    ).len(),
                ),
            ),
        ),
{
    let pair = spell_pair(joint_a, joint_b);
    let first = spell_parameter("axis"@);
    let direction = spell_axis(axis);
    let second = spell_parameter("min"@);
    let low = seq![numeral(min_angle)];
    let third = spell_parameter("max"@);
    let high = seq![numeral(max_angle)];
    lemma_reads_split(s, toks, i, pair + first + direction + second + low + third, high);
    lemma_reads_split(s, toks, i, pair + first + direction + second + low, third);
    lemma_reads_split(s, toks, i, pair + first + direction + second, low);
    lemma_reads_split(s, toks, i, pair + first + direction, second);
    lemma_reads_split(s, toks, i, pair + first, direction);
    lemma_reads_split(s, toks, i, pair, first);
    lemma_pair_reads(s, toks, i, joint_a, joint_b);
    lemma_parameter_reads(s, toks, i + 5, "axis"@, Expected::Axis);
    lemma_axis_reads(s, toks, i + 7, axis);
    let i3 = i + 7 + direction.len();
    lemma_parameter_reads(s, toks, i3, "min"@, Expected::Min);
    lemma_reads_at(s, toks, i3 + 2, low, 0);
    lemma_parameter_reads(s, toks, i3 + 3, "max"@, Expected::Max);
    lemma_reads_at(s, toks, i3 + 5, high, 0);
}

/// What is read after the first word of a constraint of the kind whose word
/// is the reserved word `n`.
pub open spec fn body_at(n: int, s: Seq<u8>, toks: Seq<Token>, i: usize) -> Result<
    (ConstraintDeclView, usize),
    ParseError,
> {
    if n == 2 {
        distance_at(s, toks, i)
    } else if n == 3 {
        fixed_at(s, toks, i)
    } else if n == 4 {
        plane_at(s, toks, i)
    } else if n == 5 {
        prismatic_vector_at(s, toks, i)
    } else if n == 6 {
        prismatic_link_at(s, toks, i)
    } else if n == 7 {
        fixed_angle_at(s, toks, i)
    } else {
        revolute_at(s, toks, i)
    }
}

/// After the first word of a constraint, the rest of the constraint is read.
proof fn lemma_constraint_word_read(s: Seq<u8>, toks: Seq<Token>, i: int, n: int)
    requires
        toks.len() <= usize::MAX,
        0 <= i < toks.len() - 1,
        2 <= n < 9,
        toks[i].kind == TokenKind::Ident,
        text_of(s, toks[i]) == reserved()[n],
    ensures
        statement_at(s, toks, i as usize) == match body_at(n, s, toks, after(i, 1)) {
            Err(e) => Err::<(StatementView, usize), ParseError>(e),
            Ok((constraint, j)) => Ok((StatementView::Constraint(constraint), j)),
        },
{
    reveal(statement_at);
    reveal(constraint_at);
    lemma_reserved_words();
    assert forall|m: int| 0 <= m < n implies text_of(s, toks[i]) != #[trigger] reserved()[m] by {
        assert(reserved()[m] != reserved()[n]);
    }
    assert(text_of(s, toks[i]) != reserved()[0]);
    assert(text_of(s, toks[i]) != reserved()[1]);
    if n > 2 {
        assert(text_of(s, toks[i]) != reserved()[2]);
    }
    if n > 3 {
        assert(text_of(s, toks[i]) != reserved()[3]);
    }
    if n > 4 {
        assert(text_of(s, toks[i]) != reserved()[4]);
    }
    if n > 5 {
        assert(text_of(s, toks[i]) != reserved()[5]);
    }
    if n > 6 {
        assert(text_of(s, toks[i]) != reserved()[6]);
    }
    if n > 7 {
        assert(text_of(s, toks[i]) != reserved()[7]);
    }
}

/// What is read from the tokens that spell what follows the first word of a
/// constraint.
proof fn lemma_constraint_body_reads(
    s: Seq<u8>,
    toks: Seq<Token>,
    i: int,
    constraint: ConstraintDeclView,
)
    requires
        toks.len() <= usize::MAX,
        has_joints(StatementView::Constraint(constraint)),
        reads(s, toks, i, spell_constraint_body(constraint)),
        boundary(s, toks, i + spell_constraint_body(constraint).len()),
    ensures
        body_at(constraint_word(constraint), s, toks, i as usize) == Ok::<
            (ConstraintDeclView, usize),
            ParseError,
        >((constraint, after(i, spell_constraint_body(constraint).len()))),
{
    match constraint {
        ConstraintDeclView::Distance { a, b, value } => {
            lemma_distance_reads(s, toks, i, a, b, value);
        },
        ConstraintDeclView::Fixed { joints } => {
            lemma_fixed_reads(s, toks, i, joints);
        },
        ConstraintDeclView::Plane { joints, normal, point } => {
            lemma_plane_reads(s, toks, i, joints, normal, point);
        },
        ConstraintDeclView::PrismaticVector { joints, axis, origin } => {
            lemma_prismatic_vector_reads(s, toks, i, joints, axis, origin);
        },
        ConstraintDeclView::PrismaticLink { joints, link, origin } => {
            lemma_prismatic_link_reads(s, toks, i, joints, link, origin);
        },
        ConstraintDeclView::FixedAngle { joint_a, pivot, joint_c, angle, unit } => {
            lemma_fixed_angle_reads(s, toks, i, joint_a, pivot, joint_c, angle, unit);
        },
        ConstraintDeclView::Revolute { joint_a, joint_b, axis, min_angle, max_angle } => {
            lemma_revolute_reads(s, toks, i, joint_a, joint_b, axis, min_angle, max_angle);
        },
    }
}

pub proof fn lemma_constraint_reads(
    s: Seq<u8>,
    toks: Seq<Token>,
    i: int,
    constraint: ConstraintDeclView,
)
    requires
        toks.len() <= usize::MAX,
        has_joints(StatementView::Constraint(constraint)),
        reads(s, toks, i, spell_constraint(constraint)),
        boundary(s, toks, i + spell_constraint(constraint).len()),
    ensures
        statement_at(s, toks, i as usize) == Ok::<(StatementView, usize), ParseError>(
            (
                StatementView::Constraint(constraint),
                after(i, spell_constraint(constraint).len()),
            ),
        ),
{
    let n = constraint_word(constraint);
    let first = seq![word(reserved()[n])];
    let body = spell_constraint_body(constraint);
    lemma_reads_split(s, toks, i, first, body);
    lemma_reads_at(s, toks, i, first, 0);
    lemma_constraint_word_read(s, toks, i, n);
    lemma_constraint_body_reads(s, toks, i + 1, constraint);
}

/// A declaration is spelled with a word in front that begins a declaration.
pub proof fn lemma_statement_spelling(statement: StatementView)
    ensures
        spell_statement(statement).len() > 0,
        spell_statement(statement)[0].kind == TokenKind::Ident,
        begins_declaration(spell_statement(statement)[0].text),
{
    match statement {
        StatementView::Joint(joint) => {
            assert(spell_joint(joint)[0] == word(reserved()[0]));
        },
        StatementView::Link(link) => {
            assert(spell_link(link)[0] == word(reserved()[1]));
        },
        StatementView::Constraint(constraint) => {
            let n = constraint_word(constraint);
            assert(spell_constraint(constraint)[0] == word(reserved()[n]));
        },
    }
}

/// A text whose tokens spell a declaration, and go on with another or with
/// the closing brace, is read as that declaration.
pub proof fn lemma_statement_reads(s: Seq<u8>, toks: Seq<Token>, i: int, statement: StatementView)
    requires
        toks.len() <= usize::MAX,
        has_joints(statement),
        reads(s, toks, i, spell_statement(statement)),
        boundary(s, toks, i + spell_statement(statement).len()),
    ensures
        statement_at(s, toks, i as usize) == Ok::<(StatementView, usize), ParseError>(
            (statement, after(i, spell_statement(statement).len())),
        ),
{
    match statement {
        StatementView::Joint(joint) => {
            lemma_joint_reads(s, toks, i, joint);
        },
        StatementView::Link(link) => {
            lemma_link_reads(s, toks, i, link);
        },
        StatementView::Constraint(constraint) => {
            lemma_constraint_reads(s, toks, i, constraint);
        },
    }
}

/// The declarations one after the other.
pub open spec fn spell_statements(statements: Seq<StatementView>) -> Seq<Lexeme>
    decreases statements.len(),
{
    if statements.len() == 0 {
        Seq::empty()
    } else {
        spell_statement(statements[0]) + spell_statements(statements.drop_first())
    }
}

/// The program with the declarations added, each to those of its kind.
pub open spec fn gathered(program: ProgramView, statements: Seq<StatementView>) -> ProgramView
    decreases statements.len(),
{
    if statements.len() == 0 {
        program
    } else {
        gathered(with_statement(program, statements[0]), statements.drop_first())
    }
}

/// Every constraint that lists joints lists at least one.
pub open spec fn all_have_joints(statements: Seq<StatementView>) -> bool {
    forall|k: int| 0 <= k < statements.len() ==> has_joints(#[trigger] statements[k])
}

/// A text whose tokens spell declarations and then the closing brace is read
/// as these declarations.
pub proof fn lemma_statements_read(
    s: Seq<u8>,
    toks: Seq<Token>,
    i: int,
    program: ProgramView,
    statements: Seq<StatementView>,
)
    requires
        toks.len() <= usize::MAX,
        all_have_joints(statements),
        reads(s, toks, i, spell_statements(statements) + seq![mark(TokenKind::RBrace)]),
    ensures
        statements_at(s, toks, i as usize, program) == Ok::<(ProgramView, usize), ParseError>(
            (gathered(program, statements), after(i, spell_statements(statements).len() + 1)),
        ),
    decreases statements.len(),
{
    let brace = seq![mark(TokenKind::RBrace)];
    if statements.len() == 0 {
        lemma_reads_at(s, toks, i, spell_statements(statements) + brace, 0);
    } else {
        let first = spell_statement(statements[0]);
        let rest = spell_statements(statements.drop_first());
        assert(spell_statements(statements) + brace =~= first + (rest + brace));
        lemma_reads_split(s, toks, i, first, rest + brace);
        lemma_statement_spelling(statements[0]);
        lemma_reads_at(s, toks, i, first, 0);
        let j = i + first.len();
        lemma_reads_at(s, toks, j, rest + brace, 0);
        assert(boundary(s, toks, j)) by {
            if statements.len() == 1 {
                assert((rest + brace)[0] == mark(TokenKind::RBrace));
            } else {
                lemma_statement_spelling(statements[1]);
                let next = spell_statement(statements[1]);
                assert(statements.drop_first()[0] == statements[1]);
                assert((rest + brace)[0] == next[0]);
            }
        }
        assert(has_joints(statements[0]));
        lemma_statement_reads(s, toks, i, statements[0]);
        assert(all_have_joints(statements.drop_first())) by {
            assert forall|k: int| 0 <= k < statements.drop_first().len() implies has_joints(
                #[trigger] statements.drop_first()[k],
            ) by {
                assert(statements.drop_first()[k] == statements[k + 1]);
            }
        }
        lemma_statements_read(
            s,
            toks,
            j,
            with_statement(program, statements[0]),
            statements.drop_first(),
        );
    }
}

/// A program: the word `sim`, its name, and its declarations in braces.
pub open spec fn spell_program(sim_name: Seq<char>, statements: Seq<StatementView>) -> Seq<Lexeme> {
    seq![word("sim"@), word(sim_name), mark(TokenKind::LBrace)] + spell_statements(statements)
        + seq![mark(TokenKind::RBrace)]
}

/// A text whose tokens spell a program is read as that program: its name,
/// and the joints, the links and the constraints among the declarations,
/// each in the order in which they stand.
pub proof fn lemma_program_reads(
    s: Seq<u8>,
    toks: Seq<Token>,
    sim_name: Seq<char>,
    statements: Seq<StatementView>,
)
    requires
        toks.len() <= usize::MAX,
        all_have_joints(statements),
        reads(s, toks, 0, spell_program(sim_name, statements)),
        toks[spell_program(sim_name, statements).len() as int].kind == TokenKind::End,
    ensures
        program_of(s, toks) == Ok::<ProgramView, ParseError>(
            gathered(empty_program(sim_name), statements),
        ),
{
    let head = seq![word("sim"@), word(sim_name), mark(TokenKind::LBrace)];
    let body = spell_statements(statements);
    let brace = seq![mark(TokenKind::RBrace)];
    assert(spell_program(sim_name, statements) =~= head + (body + brace));
    lemma_reads_split(s, toks, 0, head, body + brace);
    lemma_reads_at(s, toks, 0, head, 0);
    lemma_reads_at(s, toks, 0, head, 1);
    lemma_reads_at(s, toks, 0, head, 2);
    lemma_statements_read(s, toks, 3, empty_program(sim_name), statements);
}

/// The declarations of a program: its joints, then its links, then its
/// constraints.
pub open spec fn statements_of(program: ProgramView) -> Seq<StatementView> {
    Seq::new(program.joints.len(), |i: int| StatementView::Joint(program.joints[i])) + Seq::new(
        program.links.len(),
        |i: int| StatementView::Link(program.links[i]),
    ) + Seq::new(program.constraints.len(), |i: int| StatementView::Constraint(program.constraints[i]))
}

proof fn lemma_gathered_concat(
    program: ProgramView,
    first: Seq<StatementView>,
    second: Seq<StatementView>,
)
    ensures
        gathered(program, first + second) == gathered(gathered(program, first), second),
    decreases first.len(),
{
    if first.len() == 0 {
        assert(first + second =~= second);
    } else {
        assert((first + second).drop_first() =~= first.drop_first() + second);
        lemma_gathered_concat(with_statement(program, first[0]), first.drop_first(), second);
    }
}

proof fn lemma_gathered_joints(program: ProgramView, joints: Seq<JointDeclView>)
    ensures
        gathered(program, Seq::new(joints.len(), |i: int| StatementView::Joint(joints[i])))
            == (ProgramView { joints: program.joints + joints, ..program }),
    decreases joints.len(),
{
    let statements = Seq::new(joints.len(), |i: int| StatementView::Joint(joints[i]));
    if joints.len() == 0 {
        assert(program.joints + joints =~= program.joints);
    } else {
        let rest = joints.drop_first();
        assert(statements.drop_first() =~= Seq::new(
            rest.len(),
            |i: int| StatementView::Joint(rest[i]),
        ));
        lemma_gathered_joints(with_statement(program, statements[0]), rest);
        assert(program.joints.push(joints[0]) + rest =~= program.joints + joints);
    }
}

proof fn lemma_gathered_links(program: ProgramView, links: Seq<LinkDeclView>)
    ensures
        gathered(program, Seq::new(links.len(), |i: int| StatementView::Link(links[i])))
            == (ProgramView { links: program.links + links, ..program }),
    decreases links.len(),
{
    let statements = Seq::new(links.len(), |i: int| StatementView::Link(links[i]));
    if links.len() == 0 {
        assert(program.links + links =~= program.links);
    } else {
        let rest = links.drop_first();
        assert(statements.drop_first() =~= Seq::new(
            rest.len(),
            |i: int| StatementView::Link(rest[i]),
        ));
        lemma_gathered_links(with_statement(program, statements[0]), rest);
        assert(program.links.push(links[0]) + rest =~= program.links + links);
    }
}

proof fn lemma_gathered_constraints(program: ProgramView, constraints: Seq<ConstraintDeclView>)
    ensures
        gathered(
            program,
            Seq::new(constraints.len(), |i: int| StatementView::Constraint(constraints[i])),
        ) == (ProgramView { constraints: program.constraints + constraints, ..program }),
    decreases constraints.len(),
{
    let statements = Seq::new(
        constraints.len(),
        |i: int| StatementView::Constraint(constraints[i]),
    );
    if constraints.len() == 0 {
        assert(program.constraints + constraints =~= program.constraints);
    } else {
        let rest = constraints.drop_first();
        assert(statements.drop_first() =~= Seq::new(
            rest.len(),
            |i: int| StatementView::Constraint(rest[i]),
        ));
        lemma_gathered_constraints(with_statement(program, statements[0]), rest);
        assert(program.constraints.push(constraints[0]) + rest =~= program.constraints
            + constraints);
    }
}

/// Every program is gathered from its own declarations.
pub proof fn lemma_gathered_statements_of(program: ProgramView)
    ensures
        gathered(empty_program(program.sim_name), statements_of(program)) == program,
{
    let empty = empty_program(program.sim_name);
    let joints = Seq::new(program.joints.len(), |i: int| StatementView::Joint(program.joints[i]));
    let links = Seq::new(program.links.len(), |i: int| StatementView::Link(program.links[i]));
    let constraints = Seq::new(
        program.constraints.len(),
        |i: int| StatementView::Constraint(program.constraints[i]),
    );
    lemma_gathered_concat(empty, joints + links, constraints);
    lemma_gathered_concat(empty, joints, links);
    lemma_gathered_joints(empty, program.joints);
    let with_joints = gathered(empty, joints);
    lemma_gathered_links(with_joints, program.links);
    let with_links = gathered(with_joints, links);
    lemma_gathered_constraints(with_links, program.constraints);
    assert(empty.joints + program.joints =~= program.joints);
    assert(empty.links + program.links =~= program.links);
    assert(empty.constraints + program.constraints =~= program.constraints);
}

/// The byte of the space.
pub const BLANK: u8 = 32;

/// The byte of a mark.
pub open spec fn mark_byte(kind: TokenKind) -> u8 {
    match kind {
        TokenKind::LParen => LPAREN,
        TokenKind::RParen => RPAREN,
        TokenKind::LBrace => LBRACE,
        TokenKind::RBrace => RBRACE,
        TokenKind::Comma => COMMA,
        _ => EQUALS,
    }
}

/// The characters as bytes.
pub open spec fn bytes_of(text: Seq<char>) -> Seq<u8> {
    Seq::new(text.len(), |i: int| text[i] as u8)
}

/// The bytes of a lexeme.
pub open spec fn lexeme_bytes(l: Lexeme) -> Seq<u8> {
    if is_text(l.kind) {
        bytes_of(l.text)
    } else {
        seq![mark_byte(l.kind)]
    }
}

/// The lexemes as a text: each after a blank.
pub open spec fn printed(lexemes: Seq<Lexeme>) -> Seq<u8>
    decreases lexemes.len(),
{
    if lexemes.len() == 0 {
        Seq::empty()
    } else {
        seq![BLANK] + lexeme_bytes(lexemes[0]) + printed(lexemes.drop_first())
    }
}

/// Every character is one of the first 128.
pub open spec fn is_ascii_text(text: Seq<char>) -> bool {
    forall|i: int| 0 <= i < text.len() ==> (#[trigger] text[i] as u32) < 128
}

/// A letter or an underscore, and then letters, digits and underscores.
pub open spec fn is_name(text: Seq<char>) -> bool {
    &&& text.len() > 0
    &&& is_ascii_text(text)
    &&& is_letter(text[0] as u8)
    &&& forall|i: int| 0 < i < text.len() ==> in_class(Class::Word, #[trigger] bytes_of(text)[i])
}

/// An optional minus sign and digits up to `whole`, and then either nothing
/// or a point and digits.
pub open spec fn numeral_with_whole(b: Seq<u8>, whole: int) -> bool {
    let digits = if b.len() > 0 && b[0] == MINUS {
        1int
    } else {
        0int
    };
    &&& digits < whole <= b.len()
    &&& forall|k: int| digits <= k < whole ==> is_digit(#[trigger] b[k])
    &&& whole < b.len() ==> {
        &&& b[whole] == POINT
        &&& whole + 1 < b.len()
        &&& forall|k: int| whole < k < b.len() ==> is_digit(#[trigger] b[k])
    }
}

/// A number as the grammar writes it.
pub open spec fn is_numeral(text: Seq<char>) -> bool {
    is_ascii_text(text) && exists|whole: int| #[trigger] numeral_with_whole(bytes_of(text), whole)
}

/// The lexeme can be written and read again: its text, if it has one, is a
/// name or a number as its kind says.
pub open spec fn well_spelled(l: Lexeme) -> bool {
    match l.kind {
        TokenKind::Ident => is_name(l.text),
        TokenKind::Number => is_numeral(l.text),
        TokenKind::Invalid => false,
        TokenKind::End => false,
        _ => true,
    }
}

/// Every lexeme can be written and read again.
pub open spec fn all_well_spelled(lexemes: Seq<Lexeme>) -> bool {
    forall|k: int| 0 <= k < lexemes.len() ==> well_spelled(#[trigger] lexemes[k])
}

/// A run of bytes of a class ends where the first byte stands that is not of
/// the class.
pub proof fn lemma_run_stops(s: Seq<u8>, class: Class, from: int, to: int)
    requires
        0 <= from <= to <= s.len(),
        forall|k: int| from <= k < to ==> in_class(class, #[trigger] s[k]),
        to < s.len() ==> !in_class(class, s[to]),
    ensures
        run_end(s, class, from) == to,
    decreases to - from,
{
    if from < to {
        lemma_run_stops(s, class, from + 1, to);
    }
}

/// The text from `from` on is `tail`.
pub open spec fn tail_is(s: Seq<u8>, from: int, tail: Seq<u8>) -> bool {
    0 <= from <= s.len() && s.subrange(from, s.len() as int) == tail
}

/// In a text that goes on with a blank, a well-spelled lexeme and then a
/// blank or nothing, the lexeme is the next token.
proof fn lemma_lexeme_read(s: Seq<u8>, from: int, l: Lexeme)
    requires
        s.len() <= usize::MAX,
        well_spelled(l),
        0 <= from,
        from + 1 + lexeme_bytes(l).len() <= s.len(),
        s[from] == BLANK,
        s.subrange(from + 1, from + 1 + lexeme_bytes(l).len()) == lexeme_bytes(l),
        from + 1 + lexeme_bytes(l).len() < s.len() ==> s[from + 1 + lexeme_bytes(l).len()] == BLANK,
    ensures
        lexeme_bytes(l).len() > 0,
        run_end(s, Class::Space, from) == from + 1,
        token_at(s, from + 1) == spanning(
            l.kind,
            from + 1,
            from + 1 + lexeme_bytes(l).len(),
        ),
        spells(s, token_at(s, from + 1), l),
{
    let b = lexeme_bytes(l);
    let start = from + 1;
    let end = start + b.len();
    assert forall|k: int| 0 <= k < b.len() implies s[start + k] == #[trigger] b[k] by {
        assert(s.subrange(start, end)[k] == s[start + k]);
    }
    match l.kind {
        TokenKind::Ident => {
            assert(b[0] == l.text[0] as u8);
            assert(s[start] == b[0]);
            assert forall|k: int| start + 1 <= k < end implies in_class(
                Class::Word,
                #[trigger] s[k],
            ) by {
                assert(s[k] == b[k - start]);
                assert(in_class(Class::Word, bytes_of(l.text)[k - start]));
            }
            lemma_run_stops(s, Class::Word, start + 1, end);
            lemma_run_stops(s, Class::Space, from + 1, from + 1);
            let t = token_at(s, start);
            assert(t == spanning(TokenKind::Ident, start, end));
            assert(text_of(s, t) =~= l.text) by {
                assert forall|k: int| 0 <= k < l.text.len() implies text_of(s, t)[k]
                    == l.text[k] by {
                    assert(s[start + k] == b[k]);
                    lemma_char_byte(l.text[k]);
                }
            }
        },
        TokenKind::Number => {
            let whole = choose|whole: int| #[trigger] numeral_with_whole(bytes_of(l.text), whole);
            let digits = if b[0] == MINUS {
                1int
            } else {
                0int
            };
            assert(s[start] == b[0]);
            assert(is_digit(b[digits]));
            assert(s[start + digits] == b[digits]);
            assert forall|k: int| start + digits <= k < start + whole implies in_class(
                Class::Digit,
                #[trigger] s[k],
            ) by {
                assert(s[k] == b[k - start]);
            }
            if whole < b.len() {
                assert(s[start + whole] == b[whole]);
                assert(s[start + whole + 1] == b[whole + 1]);
                assert(is_digit(b[whole + 1]));
                assert forall|k: int| start + whole + 1 <= k < end implies in_class(
                    Class::Digit,
                    #[trigger] s[k],
                ) by {
                    assert(s[k] == b[k - start]);
                }
                lemma_run_stops(s, Class::Digit, start + whole + 1, end);
            }
            lemma_run_stops(s, Class::Digit, start + digits, start + whole);
            lemma_run_stops(s, Class::Space, from + 1, from + 1);
            assert(number_end(s, start + digits) == end);
            let t = token_at(s, start);
            assert(t == spanning(TokenKind::Number, start, end));
            assert(text_of(s, t) =~= l.text) by {
                assert forall|k: int| 0 <= k < l.text.len() implies text_of(s, t)[k]
                    == l.text[k] by {
                    assert(s[start + k] == b[k]);
                    lemma_char_byte(l.text[k]);
                }
            }
        },
        _ => {
            assert(s[start] == b[0]);
            lemma_run_stops(s, Class::Space, from + 1, from + 1);
        },
    }
}

/// One of the first 128 characters is the character of its byte.
proof fn lemma_char_byte(c: char)
    requires
        (c as u32) < 128,
    ensures
        ((c as u8) as char) == c,
{
}

/// The tokens of a printed sequence of lexemes are these lexemes and the end.
pub proof fn lemma_printed_tokens(s: Seq<u8>, from: int, lexemes: Seq<Lexeme>)
    requires
        s.len() <= usize::MAX,
        all_well_spelled(lexemes),
        tail_is(s, from, printed(lexemes)),
    ensures
        tokens(s, from).len() == lexemes.len() + 1,
        tokens(s, from).last().kind == TokenKind::End,
        forall|k: int|
            0 <= k < lexemes.len() ==> spells(s, tokens(s, from)[k], #[trigger] lexemes[k]),
    decreases lexemes.len(),
{
    if lexemes.len() == 0 {
        assert(s.subrange(from, s.len() as int).len() == 0);
        lemma_run_stops(s, Class::Space, from, from);
    } else {
        let l = lexemes[0];
        let rest = lexemes.drop_first();
        let b = lexeme_bytes(l);
        let tail = printed(lexemes);
        let cut = s.subrange(from, s.len() as int);
        assert(tail == seq![BLANK] + b + printed(rest));
        assert(cut.len() == 1 + b.len() + printed(rest).len());
        assert(s[from] == cut[0]);
        assert(cut[0] == BLANK);
        let start = from + 1;
        let end = start + b.len();
        assert(s.subrange(start, end) =~= b) by {
            assert forall|k: int| 0 <= k < b.len() implies s.subrange(start, end)[k] == b[k] by {
                assert(s[start + k] == cut[1 + k]);
            }
        }
        assert(tail_is(s, end, printed(rest))) by {
            assert(s.subrange(end, s.len() as int) =~= printed(rest)) by {
                assert forall|k: int| 0 <= k < printed(rest).len() implies s.subrange(
                    end,
                    s.len() as int,
                )[k] == printed(rest)[k] by {
                    assert(s[end + k] == cut[1 + b.len() + k]);
                }
            }
        }
        if end < s.len() {
            assert(rest.len() > 0);
            assert(printed(rest)[0] == BLANK);
            assert(s[end] == s.subrange(end, s.len() as int)[0]);
        }
        assert(well_spelled(l));
        lemma_lexeme_read(s, from, l);
        assert(all_well_spelled(rest)) by {
            assert forall|k: int| 0 <= k < rest.len() implies well_spelled(#[trigger] rest[k]) by {
                assert(rest[k] == lexemes[k + 1]);
            }
        }
        lemma_printed_tokens(s, end, rest);
        let t = token_at(s, start);
        let all = tokens(s, from);
        assert(all == seq![t] + tokens(s, end));
        assert forall|k: int| 0 <= k < lexemes.len() implies spells(
            s,
            all[k],
            #[trigger] lexemes[k],
        ) by {
            if k > 0 {
                assert(all[k] == tokens(s, end)[k - 1]);
                assert(lexemes[k] == rest[k - 1]);
            }
        }
        assert(all.last() == tokens(s, end).last());
    }
}

/// Every lexeme is printed with at least one byte.
proof fn lemma_printed_len(lexemes: Seq<Lexeme>)
    ensures
        printed(lexemes).len() >= lexemes.len(),
    decreases lexemes.len(),
{
    if lexemes.len() > 0 {
        lemma_printed_len(lexemes.drop_first());
    }
}

/// A program that is printed and read is the program: its name, and its
/// joints, links and constraints, each in the order in which they were
/// printed.
pub proof fn lemma_printed_program_reads(sim_name: Seq<char>, statements: Seq<StatementView>)
    requires
        all_have_joints(statements),
        all_well_spelled(spell_program(sim_name, statements)),
        printed(spell_program(sim_name, statements)).len() < usize::MAX,
    ensures
        parsed(printed(spell_program(sim_name, statements))) == Ok::<ProgramView, ParseError>(
            gathered(empty_program(sim_name), statements),
        ),
{
    let lexemes = spell_program(sim_name, statements);
    let s = printed(lexemes);
    let toks = tokens(s, 0);
    assert(s.subrange(0, s.len() as int) =~= s);
    lemma_printed_len(lexemes);
    lemma_printed_tokens(s, 0, lexemes);
    lemma_program_reads(s, toks, sim_name, statements);
}

/// The words of the grammar are names.
pub proof fn lemma_words_are_names()
    ensures
        forall|n: int| 0 <= n < 10 ==> is_name(#[trigger] reserved()[n]),
        is_name("sim"@),
        is_name("normal"@),
        is_name("axis"@),
        is_name("origin"@),
        is_name("min"@),
        is_name("max"@),
        is_name("deg"@),
        is_name("rad"@),
        is_name("X"@),
        is_name("Y"@),
        is_name("Z"@),
{
    reveal_strlit("joint");
    reveal_strlit("link");
    reveal_strlit("distance");
    reveal_strlit("fixed");
    reveal_strlit("plane");
    reveal_strlit("prismatic_vector");
    reveal_strlit("prismatic_link");
    reveal_strlit("fixed_angle");
    reveal_strlit("revolute");
    reveal_strlit("point");
    reveal_strlit("sim");
    reveal_strlit("normal");
    reveal_strlit("axis");
    reveal_strlit("origin");
    reveal_strlit("min");
    reveal_strlit("max");
    reveal_strlit("deg");
    reveal_strlit("rad");
    reveal_strlit("X");
    reveal_strlit("Y");
    reveal_strlit("Z");
}

/// Every one of the texts is a name.
pub open spec fn all_names(names: Seq<Seq<char>>) -> bool {
    forall|k: int| 0 <= k < names.len() ==> is_name(#[trigger] names[k])
}

/// The three literals are numbers.
pub open spec fn valid_vector(v: VectorLiteralView) -> bool {
    is_numeral(v.x) && is_numeral(v.y) && is_numeral(v.z)
}

/// The direction can be written.
pub open spec fn valid_axis(axis: AxisView) -> bool {
    match axis {
        AxisView::Vector(v) => valid_vector(v),
        _ => true,
    }
}

/// The point, if there is one, can be written.
pub open spec fn valid_point(point: Option<VectorLiteralView>) -> bool {
    match point {
        Some(p) => valid_vector(p),
        None => true,
    }
}

/// The constraint can be written: its names are names, its numbers are
/// numbers, and where it lists joints it lists at least one.
pub open spec fn valid_constraint(constraint: ConstraintDeclView) -> bool {
    match constraint {
        ConstraintDeclView::Distance { a, b, value } => is_name(a) && is_name(b) && is_numeral(
            value,
        ),
        ConstraintDeclView::Fixed { joints } => joints.len() > 0 && all_names(joints),
        ConstraintDeclView::Plane { joints, normal, point } => joints.len() > 0 && all_names(
            joints,
        ) && valid_axis(normal) && valid_point(point),
        ConstraintDeclView::PrismaticVector { joints, axis, origin } => joints.len() > 0
            && all_names(joints) && valid_axis(axis) && valid_vector(origin),
        ConstraintDeclView::PrismaticLink { joints, link, origin } => joints.len() > 0
            && all_names(joints) && is_name(link) && valid_vector(origin),
        ConstraintDeclView::FixedAngle { joint_a, pivot, joint_c, angle, unit } => is_name(joint_a)
            && is_name(pivot) && is_name(joint_c) && is_numeral(angle),
        ConstraintDeclView::Revolute { joint_a, joint_b, axis, min_angle, max_angle } => is_name(
            joint_a,
        ) && is_name(joint_b) && valid_axis(axis) && is_numeral(min_angle) && is_numeral(
            max_angle,
        ),
    }
}

/// The declaration can be written.
pub open spec fn valid_statement(statement: StatementView) -> bool {
    match statement {
        StatementView::Joint(joint) => is_name(joint.name) && is_numeral(joint.x) && is_numeral(
            joint.y,
        ) && match joint.z {
            Some(z) => is_numeral(z),
            None => true,
        },
        StatementView::Link(link) => is_name(link.name) && is_name(link.joint_a) && is_name(
            link.joint_b,
        ),
        StatementView::Constraint(constraint) => valid_constraint(constraint),
    }
}

/// Every declaration can be written.
pub open spec fn all_valid(statements: Seq<StatementView>) -> bool {
    forall|k: int| 0 <= k < statements.len() ==> valid_statement(#[trigger] statements[k])
}

/// The program can be written.
pub open spec fn valid_program(program: ProgramView) -> bool {
    is_name(program.sim_name) && all_valid(statements_of(program))
}

proof fn lemma_well_spelled_concat(first: Seq<Lexeme>, second: Seq<Lexeme>)
    requires
        all_well_spelled(first),
        all_well_spelled(second),
    ensures
        all_well_spelled(first + second),
{
    let both = first + second;
    assert forall|k: int| 0 <= k < both.len() implies well_spelled(#[trigger] both[k]) by {
        if k < first.len() {
            assert(both[k] == first[k]);
        } else {
            assert(both[k] == second[k - first.len()]);
        }
    }
}

proof fn lemma_more_names_well_spelled(names: Seq<Seq<char>>)
    requires
        all_names(names),
    ensures
        all_well_spelled(spell_more_names(names)),
    decreases names.len(),
{
    if names.len() > 0 {
        assert(is_name(names[0]));
        assert forall|k: int| 0 <= k < names.drop_first().len() implies is_name(
            #[trigger] names.drop_first()[k],
        ) by {
            assert(names.drop_first()[k] == names[k + 1]);
        }
        lemma_more_names_well_spelled(names.drop_first());
        lemma_well_spelled_concat(
            seq![mark(TokenKind::Comma), word(names[0])],
            spell_more_names(names.drop_first()),
        );
    }
}

proof fn lemma_group_well_spelled(names: Seq<Seq<char>>)
    requires
        names.len() > 0,
        all_names(names),
    ensures
        all_well_spelled(spell_group(names)),
{
    assert(is_name(names[0]));
    assert forall|k: int| 0 <= k < names.drop_first().len() implies is_name(
        #[trigger] names.drop_first()[k],
    ) by {
        assert(names.drop_first()[k] == names[k + 1]);
    }
    lemma_more_names_well_spelled(names.drop_first());
    let head = seq![mark(TokenKind::LParen), word(names[0])];
    lemma_well_spelled_concat(head, spell_more_names(names.drop_first()));
    lemma_well_spelled_concat(
        head + spell_more_names(names.drop_first()),
        seq![mark(TokenKind::RParen)],
    );
}

proof fn lemma_axis_well_spelled(axis: AxisView)
    requires
        valid_axis(axis),
    ensures
        all_well_spelled(spell_axis(axis)),
{
    lemma_words_are_names();
}

proof fn lemma_point_well_spelled(point: Option<VectorLiteralView>)
    requires
        valid_point(point),
    ensures
        all_well_spelled(spell_point(point)),
{
    lemma_words_are_names();
    match point {
        Some(p) => {
            assert(is_name(reserved()[9]));
            lemma_well_spelled_concat(spell_parameter("point"@), spell_vector(p));
        },
        None => {},
    }
}

proof fn lemma_constraint_body_well_spelled(constraint: ConstraintDeclView)
    requires
        valid_constraint(constraint),
    ensures
        all_well_spelled(spell_constraint_body(constraint)),
{
    lemma_words_are_names();
    match constraint {
        ConstraintDeclView::Distance { a, b, value } => {
            lemma_well_spelled_concat(
                spell_pair(a, b),
                seq![mark(TokenKind::Equals), numeral(value)],
            );
        },
        ConstraintDeclView::Fixed { joints } => {
            lemma_group_well_spelled(joints);
        },
        ConstraintDeclView::Plane { joints, normal, point } => {
            lemma_group_well_spelled(joints);
            lemma_axis_well_spelled(normal);
            lemma_point_well_spelled(point);
            let a = spell_group(joints);
            let b = spell_parameter("normal"@);
            let c = spell_axis(normal);
            let d = spell_point(point);
            lemma_well_spelled_concat(a, b);
            lemma_well_spelled_concat(a + b, c);
            lemma_well_spelled_concat(a + b + c, d);
        },
        ConstraintDeclView::PrismaticVector { joints, axis, origin } => {
            lemma_group_well_spelled(joints);
            lemma_axis_well_spelled(axis);
            let a = spell_group(joints);
            let b = spell_parameter("axis"@);
            let c = spell_axis(axis);
            let d = spell_parameter("origin"@);
            let e = spell_vector(origin);
            lemma_well_spelled_concat(a, b);
            lemma_well_spelled_concat(a + b, c);
            lemma_well_spelled_concat(a + b + c, d);
            lemma_well_spelled_concat(a + b + c + d, e);
        },
        ConstraintDeclView::PrismaticLink { joints, link, origin } => {
            lemma_group_well_spelled(joints);
            let a = spell_group(joints);
            let b = spell_parameter("link"@);
            let c = seq![word(link)];
            let d = spell_parameter("origin"@);
            let e = spell_vector(origin);
            assert(is_name(reserved()[1]));
            lemma_well_spelled_concat(a, b);
            lemma_well_spelled_concat(a + b, c);
            lemma_well_spelled_concat(a + b + c, d);
            lemma_well_spelled_concat(a + b + c + d, e);
        },
        ConstraintDeclView::FixedAngle { joint_a, pivot, joint_c, angle, unit } => {},
        ConstraintDeclView::Revolute { joint_a, joint_b, axis, min_angle, max_angle } => {
            lemma_axis_well_spelled(axis);
            let a = spell_pair(joint_a, joint_b);
            let b = spell_parameter("axis"@);
            let c = spell_axis(axis);
            let d = spell_parameter("min"@);
            let e = seq![numeral(min_angle)];
            let f = spell_parameter("max"@);
            let g = seq![numeral(max_angle)];
            lemma_well_spelled_concat(a, b);
            lemma_well_spelled_concat(a + b, c);
            lemma_well_spelled_concat(a + b + c, d);
            lemma_well_spelled_concat(a + b + c + d, e);
            lemma_well_spelled_concat(a + b + c + d + e, f);
            lemma_well_spelled_concat(a + b + c + d + e + f, g);
        },
    }
}

/// A declaration that can be written is spelled with lexemes that can.
proof fn lemma_statement_well_spelled(statement: StatementView)
    requires
        valid_statement(statement),
    ensures
        all_well_spelled(spell_statement(statement)),
        has_joints(statement),
{
    lemma_words_are_names();
    match statement {
        StatementView::Joint(joint) => {
            assert(is_name(reserved()[0]));
            match joint.z {
                Some(z) => {
                    lemma_well_spelled_concat(
                        seq![
                            word("joint"@),
                            word(joint.name),
                            mark(TokenKind::Comma),
                            numeral(joint.x),
                            mark(TokenKind::Comma),
                            numeral(joint.y),
                        ],
                        seq![mark(TokenKind::Comma), numeral(z)],
                    );
                },
                None => {},
            }
        },
        StatementView::Link(link) => {
            assert(is_name(reserved()[1]));
        },
        StatementView::Constraint(constraint) => {
            lemma_constraint_body_well_spelled(constraint);
            assert(is_name(reserved()[constraint_word(constraint)]));
            lemma_well_spelled_concat(
                seq![word(reserved()[constraint_word(constraint)])],
                spell_constraint_body(constraint),
            );
        },
    }
}

proof fn lemma_statements_well_spelled(statements: Seq<StatementView>)
    requires
        all_valid(statements),
    ensures
        all_well_spelled(spell_statements(statements)),
        all_have_joints(statements),
    decreases statements.len(),
{
    if statements.len() > 0 {
        assert(valid_statement(statements[0]));
        lemma_statement_well_spelled(statements[0]);
        assert forall|k: int| 0 <= k < statements.drop_first().len() implies valid_statement(
            #[trigger] statements.drop_first()[k],
        ) by {
            assert(statements.drop_first()[k] == statements[k + 1]);
        }
        lemma_statements_well_spelled(statements.drop_first());
        lemma_well_spelled_concat(
            spell_statement(statements[0]),
            spell_statements(statements.drop_first()),
        );
        assert forall|k: int| 0 <= k < statements.len() implies has_joints(
            #[trigger] statements[k],
        ) by {
            if k > 0 {
                assert(statements[k] == statements.drop_first()[k - 1]);
            }
        }
    }
}

/// The text of a program: its declarations spelled in the order joints,
/// links, constraints, each lexeme after a blank.
pub open spec fn program_text(program: ProgramView) -> Seq<u8> {
    printed(spell_program(program.sim_name, statements_of(program)))
}

/// Every program that can be written is read from its text.
pub proof fn lemma_program_round_trip(program: ProgramView)
    requires
        valid_program(program),
        program_text(program).len() < usize::MAX,
    ensures
        parsed(program_text(program)) == Ok::<ProgramView, ParseError>(program),
{
    let statements = statements_of(program);
    lemma_words_are_names();
    lemma_statements_well_spelled(statements);
    let head = seq![word("sim"@), word(program.sim_name), mark(TokenKind::LBrace)];
    lemma_well_spelled_concat(head, spell_statements(statements));
    lemma_well_spelled_concat(
        head + spell_statements(statements),
        seq![mark(TokenKind::RBrace)],
    );
    lemma_printed_program_reads(program.sim_name, statements);
    lemma_gathered_statements_of(program);
}

} // verus!
