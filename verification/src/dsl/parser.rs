//! Reading a mechanism description.
//!
//! ```text
//! file       = "sim" name "{" statement* "}"
//! statement  = "joint" name "," number "," number [ "," number ]
//!            | "link" name "," name "," name
//!            | "distance" "(" name "," name ")" "=" number
//!            | "fixed" "(" names ")"
//!            | "plane" "(" names ")" "normal" "=" direction [ "point" "=" vector ]
//!            | "prismatic_vector" "(" names ")" "axis" "=" direction "origin" "=" vector
//!            | "prismatic_link" "(" names ")" "link" "=" name "origin" "=" vector
//!            | "fixed_angle" "(" name "," name "," name ")" "=" number [ unit ]
//!            | "revolute" "(" name "," name ")" "axis" "=" direction
//!                  "min" "=" number "max" "=" number
//! names      = name { "," name }
//! direction  = "X" | "Y" | "Z" | vector
//! vector     = "(" number "," number "," number ")"
//! unit       = "deg" | "degrees" | "rad" | "radians"
//! ```
//!
//! Reading stops at the first token that does not fit. The error tells where
//! that token starts and what was expected in its place.

use crate::dsl::ast::{
    AngleUnit, Axis, AxisView, ConstraintDecl, ConstraintDeclView, JointDecl, JointDeclView,
    LinkDecl, LinkDeclView, Literal, Program, ProgramView, VectorLiteral, VectorLiteralView,
};
use crate::dsl::lexer::{
    byte_of, is_terminal, text_of, tokenize, tokens, well_formed, Token, TokenKind,
};
use crate::text::{decimal, push_char, push_decimal};
use vstd::prelude::*;
use vstd::string::StringExecFns;
use vstd::string::StringSliceAdditionalSpecFns;

verus! {

/// What the grammar asked for where reading stopped.
#[derive(Clone, Copy, Debug, PartialEq, Eq, Structural)]
pub enum Expected {
    /// The word `sim`, with which a description begins.
    Header,
    Name,
    Number,
    LParen,
    RParen,
    LBrace,
    Comma,
    Equals,
    /// The first word of a declaration, or the closing brace.
    Statement,
    /// The word `normal`.
    Normal,
    /// The word `axis`.
    Axis,
    /// The word `origin`.
    Origin,
    /// The word `link`.
    Link,
    /// The word `min`.
    Min,
    /// The word `max`.
    Max,
    /// `X`, `Y`, `Z` or a vector.
    Direction,
    /// The end of the text.
    End,
}

/// Why a text is no description: at byte `offset` stands something other
/// than what the grammar expects there.
#[derive(Clone, Copy, Debug, PartialEq, Eq, Structural)]
pub struct ParseError {
    pub offset: usize,
    pub expected: Expected,
}

impl Expected {
    pub open spec fn spec_describe(&self) -> Seq<char> {
        match self {
            Expected::Header => "the word 'sim'"@,
            Expected::Name => "a name"@,
            Expected::Number => "a number"@,
            Expected::LParen => "'('"@,
            Expected::RParen => "')'"@,
            Expected::LBrace => "'{'"@,
            Expected::Comma => "','"@,
            Expected::Equals => "'='"@,
            Expected::Statement => "a declaration or '}'"@,
            Expected::Normal => "the word 'normal'"@,
            Expected::Axis => "the word 'axis'"@,
            Expected::Origin => "the word 'origin'"@,
            Expected::Link => "the word 'link'"@,
            Expected::Min => "the word 'min'"@,
            Expected::Max => "the word 'max'"@,
            Expected::Direction => "'X', 'Y', 'Z' or a vector"@,
            Expected::End => "the end of the text"@,
        }
    }

    /// What was expected, in words.
    pub fn describe(&self) -> (text: &'static str)
        ensures
            text@ == self.spec_describe(),
    {
        match self {
            Expected::Header => "the word 'sim'",
            Expected::Name => "a name",
            Expected::Number => "a number",
            Expected::LParen => "'('",
            Expected::RParen => "')'",
            Expected::LBrace => "'{'",
            Expected::Comma => "','",
            Expected::Equals => "'='",
            Expected::Statement => "a declaration or '}'",
            Expected::Normal => "the word 'normal'",
            Expected::Axis => "the word 'axis'",
            Expected::Origin => "the word 'origin'",
            Expected::Link => "the word 'link'",
            Expected::Min => "the word 'min'",
            Expected::Max => "the word 'max'",
            Expected::Direction => "'X', 'Y', 'Z' or a vector",
            Expected::End => "the end of the text",
        }
    }
}

/// The byte that ends a line.
pub const LINE_FEED: u8 = 10;

/// A place in a text: its line, and its column in bytes, both counted from 1.
#[derive(Clone, Copy, Debug, PartialEq, Eq, Structural)]
pub struct Location {
    pub line: usize,
    pub column: usize,
}

/// How many line feeds stand before `offset`.
pub open spec fn line_feeds_before(s: Seq<u8>, offset: int) -> int
    decreases offset,
{
    if offset <= 0 {
        0
    } else {
        line_feeds_before(s, offset - 1) + if s[offset - 1] == LINE_FEED {
            1int
        } else {
            0int
        }
    }
}

/// Where the line that holds `offset` begins: after the last line feed before
/// `offset`, or at the beginning of the text.
pub open spec fn line_start(s: Seq<u8>, offset: int) -> int
    decreases offset,
{
    if offset <= 0 {
        0
    } else if s[offset - 1] == LINE_FEED {
        offset
    } else {
        line_start(s, offset - 1)
    }
}

/// `n`, or the greatest `usize` if `n` is greater.
pub open spec fn capped(n: int) -> usize {
    if n > usize::MAX {
        usize::MAX
    } else {
        n as usize
    }
}

/// The place of the byte at `offset`; an offset beyond the text counts as its end.
pub open spec fn location_of(s: Seq<u8>, offset: int) -> Location {
    let at = if offset > s.len() {
        s.len() as int
    } else {
        offset
    };
    Location {
        line: capped(line_feeds_before(s, at) + 1),
        column: capped(at - line_start(s, at) + 1),
    }
}

/// The message for an error at a place.
pub open spec fn syntax_message(at: Location, expected: Expected) -> Seq<char> {
    "line "@ + decimal(at.line as nat) + ", column "@ + decimal(at.column as nat)
        + ": expected "@ + expected.spec_describe()
}

/// A line begins at or before every offset in it, right after a line feed
/// or at the beginning of the text, and holds no line feed before the offset.
pub proof fn lemma_line_start(s: Seq<u8>, offset: int)
    requires
        0 <= offset <= s.len(),
    ensures
        0 <= line_start(s, offset) <= offset,
        0 <= line_feeds_before(s, offset) <= offset,
        forall|k: int| line_start(s, offset) <= k < offset ==> s[k] != LINE_FEED,
        line_start(s, offset) > 0 ==> s[line_start(s, offset) - 1] == LINE_FEED,
    decreases offset,
{
    if offset > 0 {
        lemma_line_start(s, offset - 1);
    }
}

impl ParseError {
    /// The line and the column at which the text departs from the grammar.
    pub fn locate(&self, source: &[u8]) -> (at: Location)
        ensures
            at == location_of(source@, self.offset as int),
    {
        let end = if self.offset > source.len() {
            source.len()
        } else {
            self.offset
        };
        let mut feeds: usize = 0;
        let mut start: usize = 0;
        let mut k: usize = 0;
        while k < end
            invariant
                k <= end <= source@.len(),
                feeds == line_feeds_before(source@, k as int),
                start == line_start(source@, k as int),
                feeds <= k,
                start <= k,
            decreases end - k,
        {
            if source[k] == LINE_FEED {
                feeds += 1;
                start = k + 1;
            }
            k += 1;
        }
        Location { line: feeds.saturating_add(1), column: (end - start).saturating_add(1) }
    }

    /// The error in words: where it is in `source`, and what was expected there.
    pub fn message(&self, source: &[u8]) -> (text: String)
        ensures
            text@ == syntax_message(location_of(source@, self.offset as int), self.expected),
    {
        let at = self.locate(source);
        let mut text = String::from_str("line ");
        push_decimal(&mut text, at.line);
        text.append(", column ");
        push_decimal(&mut text, at.column);
        text.append(": expected ");
        text.append(self.expected.describe());
        text
    }
}

/// One declaration.
#[derive(Debug)]
pub enum Statement {
    Joint(JointDecl),
    Link(LinkDecl),
    Constraint(ConstraintDecl),
}

/// One declaration, as the grammar speaks of it.
pub enum StatementView {
    Joint(JointDeclView),
    Link(LinkDeclView),
    Constraint(ConstraintDeclView),
}

impl DeepView for Statement {
    type V = StatementView;

    open spec fn deep_view(&self) -> StatementView {
        match self {
            Statement::Joint(j) => StatementView::Joint(j.deep_view()),
            Statement::Link(l) => StatementView::Link(l.deep_view()),
            Statement::Constraint(c) => StatementView::Constraint(c.deep_view()),
        }
    }
}

/// The error for the token at `i`, in whose place `expected` should stand.
pub open spec fn failure(toks: Seq<Token>, i: usize, expected: Expected) -> ParseError {
    ParseError { offset: toks[i as int].start, expected }
}

/// The index after `i`.
pub open spec fn next(i: usize) -> usize {
    (i + 1) as usize
}

/// A token of the given kind stands at `i`.
pub open spec fn symbol_at(toks: Seq<Token>, i: usize, kind: TokenKind, expected: Expected) -> Result<
    usize,
    ParseError,
> {
    if toks[i as int].kind == kind {
        Ok(next(i))
    } else {
        Err(failure(toks, i, expected))
    }
}

/// The token at `i` is a name, and the name is `word`.
pub open spec fn is_word(s: Seq<u8>, toks: Seq<Token>, i: usize, word: Seq<char>) -> bool {
    toks[i as int].kind == TokenKind::Ident && text_of(s, toks[i as int]) == word
}

/// The given word stands at `i`.
pub open spec fn word_at(
    s: Seq<u8>,
    toks: Seq<Token>,
    i: usize,
    word: Seq<char>,
    expected: Expected,
) -> Result<usize, ParseError> {
    if is_word(s, toks, i, word) {
        Ok(next(i))
    } else {
        Err(failure(toks, i, expected))
    }
}

/// The given word and an equals sign stand at `i`.
pub open spec fn parameter_at(
    s: Seq<u8>,
    toks: Seq<Token>,
    i: usize,
    word: Seq<char>,
    expected: Expected,
) -> Result<usize, ParseError> {
    match word_at(s, toks, i, word, expected) {
        Err(e) => Err(e),
        Ok(i1) => symbol_at(toks, i1, TokenKind::Equals, Expected::Equals),
    }
}

/// A name stands at `i`.
pub open spec fn name_at(s: Seq<u8>, toks: Seq<Token>, i: usize) -> Result<
    (Seq<char>, usize),
    ParseError,
> {
    if toks[i as int].kind == TokenKind::Ident {
        Ok((text_of(s, toks[i as int]), next(i)))
    } else {
        Err(failure(toks, i, Expected::Name))
    }
}

/// A number stands at `i`.
pub open spec fn number_at(s: Seq<u8>, toks: Seq<Token>, i: usize) -> Result<
    (Seq<char>, usize),
    ParseError,
> {
    if toks[i as int].kind == TokenKind::Number {
        Ok((text_of(s, toks[i as int]), next(i)))
    } else {
        Err(failure(toks, i, Expected::Number))
    }
}

/// A comma and a name stand at `i`.
pub open spec fn comma_name_at(s: Seq<u8>, toks: Seq<Token>, i: usize) -> Result<
    (Seq<char>, usize),
    ParseError,
> {
    match symbol_at(toks, i, TokenKind::Comma, Expected::Comma) {
        Err(e) => Err(e),
        Ok(i1) => name_at(s, toks, i1),
    }
}

/// A comma and a number stand at `i`.
pub open spec fn comma_number_at(s: Seq<u8>, toks: Seq<Token>, i: usize) -> Result<
    (Seq<char>, usize),
    ParseError,
> {
    match symbol_at(toks, i, TokenKind::Comma, Expected::Comma) {
        Err(e) => Err(e),
        Ok(i1) => number_at(s, toks, i1),
    }
}

/// Three numbers in parentheses, with commas between them.
pub open spec fn vector_at(s: Seq<u8>, toks: Seq<Token>, i: usize) -> Result<
    (VectorLiteralView, usize),
    ParseError,
> {
    match symbol_at(toks, i, TokenKind::LParen, Expected::LParen) {
        Err(e) => Err(e),
        Ok(i1) => match number_at(s, toks, i1) {
            Err(e) => Err(e),
            Ok((x, i2)) => match comma_number_at(s, toks, i2) {
                Err(e) => Err(e),
                Ok((y, i3)) => match comma_number_at(s, toks, i3) {
                    Err(e) => Err(e),
                    Ok((z, i4)) => match symbol_at(toks, i4, TokenKind::RParen, Expected::RParen) {
                        Err(e) => Err(e),
                        Ok(i5) => Ok((VectorLiteralView { x, y, z }, i5)),
                    },
                },
            },
        },
    }
}

/// The letter of an axis, or a vector.
pub open spec fn direction_at(s: Seq<u8>, toks: Seq<Token>, i: usize) -> Result<
    (AxisView, usize),
    ParseError,
> {
    if is_word(s, toks, i, "X"@) {
        Ok((AxisView::X, next(i)))
    } else if is_word(s, toks, i, "Y"@) {
        Ok((AxisView::Y, next(i)))
    } else if is_word(s, toks, i, "Z"@) {
        Ok((AxisView::Z, next(i)))
    } else if toks[i as int].kind == TokenKind::LParen {
        match vector_at(s, toks, i) {
            Err(e) => Err(e),
            Ok((v, j)) => Ok((AxisView::Vector(v), j)),
        }
    } else {
        Err(failure(toks, i, Expected::Direction))
    }
}

/// The names that follow the first of a list, each after a comma.
pub open spec fn more_names_at(s: Seq<u8>, toks: Seq<Token>, i: usize, found: Seq<Seq<char>>) -> Result<
    (Seq<Seq<char>>, usize),
    ParseError,
>
    decreases toks.len() - i,
{
    if i < toks.len() && toks[i as int].kind == TokenKind::Comma {
        match comma_name_at(s, toks, i) {
            Err(e) => Err(e),
            Ok((name, j)) => if i < j <= toks.len() {
                more_names_at(s, toks, j, found.push(name))
            } else {
                Ok((found, i))
            },
        }
    } else {
        Ok((found, i))
    }
}

/// One or more names, with commas between them.
pub open spec fn names_at(s: Seq<u8>, toks: Seq<Token>, i: usize) -> Result<
    (Seq<Seq<char>>, usize),
    ParseError,
> {
    match name_at(s, toks, i) {
        Err(e) => Err(e),
        Ok((first, i1)) => more_names_at(s, toks, i1, seq![first]),
    }
}

/// A list of names in parentheses.
pub open spec fn group_at(s: Seq<u8>, toks: Seq<Token>, i: usize) -> Result<
    (Seq<Seq<char>>, usize),
    ParseError,
> {
    match symbol_at(toks, i, TokenKind::LParen, Expected::LParen) {
        Err(e) => Err(e),
        Ok(i1) => match names_at(s, toks, i1) {
            Err(e) => Err(e),
            Ok((names, i2)) => match symbol_at(toks, i2, TokenKind::RParen, Expected::RParen) {
                Err(e) => Err(e),
                Ok(i3) => Ok((names, i3)),
            },
        },
    }
}

/// Two names in parentheses.
pub open spec fn pair_at(s: Seq<u8>, toks: Seq<Token>, i: usize) -> Result<
    ((Seq<char>, Seq<char>), usize),
    ParseError,
> {
    match symbol_at(toks, i, TokenKind::LParen, Expected::LParen) {
        Err(e) => Err(e),
        Ok(i1) => match name_at(s, toks, i1) {
            Err(e) => Err(e),
            Ok((a, i2)) => match comma_name_at(s, toks, i2) {
                Err(e) => Err(e),
                Ok((b, i3)) => match symbol_at(toks, i3, TokenKind::RParen, Expected::RParen) {
                    Err(e) => Err(e),
                    Ok(i4) => Ok(((a, b), i4)),
                },
            },
        },
    }
}

/// The rest of a joint declaration, after its first word.
pub open spec fn joint_at(s: Seq<u8>, toks: Seq<Token>, i: usize) -> Result<
    (JointDeclView, usize),
    ParseError,
> {
    match name_at(s, toks, i) {
        Err(e) => Err(e),
        Ok((name, i1)) => match comma_number_at(s, toks, i1) {
            Err(e) => Err(e),
            Ok((x, i2)) => match comma_number_at(s, toks, i2) {
                Err(e) => Err(e),
                Ok((y, i3)) => if toks[i3 as int].kind == TokenKind::Comma {
                    match comma_number_at(s, toks, i3) {
                        Err(e) => Err(e),
                        Ok((z, i4)) => Ok((JointDeclView { name, x, y, z: Some(z) }, i4)),
                    }
                } else {
                    Ok((JointDeclView { name, x, y, z: None }, i3))
                },
            },
        },
    }
}

/// The rest of a link declaration, after its first word.
pub open spec fn link_at(s: Seq<u8>, toks: Seq<Token>, i: usize) -> Result<
    (LinkDeclView, usize),
    ParseError,
> {
    match name_at(s, toks, i) {
        Err(e) => Err(e),
        Ok((name, i1)) => match comma_name_at(s, toks, i1) {
            Err(e) => Err(e),
            Ok((joint_a, i2)) => match comma_name_at(s, toks, i2) {
                Err(e) => Err(e),
                Ok((joint_b, i3)) => Ok((LinkDeclView { name, joint_a, joint_b }, i3)),
            },
        },
    }
}

/// The rest of a distance constraint, after its first word.
pub open spec fn distance_at(s: Seq<u8>, toks: Seq<Token>, i: usize) -> Result<
    (ConstraintDeclView, usize),
    ParseError,
> {
    match pair_at(s, toks, i) {
        Err(e) => Err(e),
        Ok(((a, b), i1)) => match symbol_at(toks, i1, TokenKind::Equals, Expected::Equals) {
            Err(e) => Err(e),
            Ok(i2) => match number_at(s, toks, i2) {
                Err(e) => Err(e),
                Ok((value, i3)) => Ok((ConstraintDeclView::Distance { a, b, value }, i3)),
            },
        },
    }
}

/// The rest of a fixed constraint, after its first word.
pub open spec fn fixed_at(s: Seq<u8>, toks: Seq<Token>, i: usize) -> Result<
    (ConstraintDeclView, usize),
    ParseError,
> {
    match group_at(s, toks, i) {
        Err(e) => Err(e),
        Ok((joints, i1)) => Ok((ConstraintDeclView::Fixed { joints }, i1)),
    }
}

/// The rest of a plane constraint, after its first word. The point is read
/// if the word `point` follows the normal.
pub open spec fn plane_at(s: Seq<u8>, toks: Seq<Token>, i: usize) -> Result<
    (ConstraintDeclView, usize),
    ParseError,
> {
    match group_at(s, toks, i) {
        Err(e) => Err(e),
        Ok((joints, i1)) => match parameter_at(s, toks, i1, "normal"@, Expected::Normal) {
            Err(e) => Err(e),
            Ok(i2) => match direction_at(s, toks, i2) {
                Err(e) => Err(e),
                Ok((normal, i3)) => if is_word(s, toks, i3, "point"@) {
                    match symbol_at(toks, next(i3), TokenKind::Equals, Expected::Equals) {
                        Err(e) => Err(e),
                        Ok(i4) => match vector_at(s, toks, i4) {
                            Err(e) => Err(e),
                            Ok((point, i5)) => Ok(
                                (
                                    ConstraintDeclView::Plane { joints, normal, point: Some(point) },
                                    i5,
                                ),
                            ),
                        },
                    }
                } else {
                    Ok((ConstraintDeclView::Plane { joints, normal, point: None }, i3))
                },
            },
        },
    }
}

/// The rest of a constraint to a line along a vector, after its first word.
pub open spec fn prismatic_vector_at(s: Seq<u8>, toks: Seq<Token>, i: usize) -> Result<
    (ConstraintDeclView, usize),
    ParseError,
> {
    match group_at(s, toks, i) {
        Err(e) => Err(e),
        Ok((joints, i1)) => match parameter_at(s, toks, i1, "axis"@, Expected::Axis) {
            Err(e) => Err(e),
            Ok(i2) => match direction_at(s, toks, i2) {
                Err(e) => Err(e),
                Ok((axis, i3)) => match parameter_at(s, toks, i3, "origin"@, Expected::Origin) {
                    Err(e) => Err(e),
                    Ok(i4) => match vector_at(s, toks, i4) {
                        Err(e) => Err(e),
                        Ok((origin, i5)) => Ok(
                            (ConstraintDeclView::PrismaticVector { joints, axis, origin }, i5),
                        ),
                    },
                },
            },
        },
    }
}

/// The rest of a constraint to a line along a link, after its first word.
pub open spec fn prismatic_link_at(s: Seq<u8>, toks: Seq<Token>, i: usize) -> Result<
    (ConstraintDeclView, usize),
    ParseError,
> {
    match group_at(s, toks, i) {
        Err(e) => Err(e),
        Ok((joints, i1)) => match parameter_at(s, toks, i1, "link"@, Expected::Link) {
            Err(e) => Err(e),
            Ok(i2) => match name_at(s, toks, i2) {
                Err(e) => Err(e),
                Ok((link, i3)) => match parameter_at(s, toks, i3, "origin"@, Expected::Origin) {
                    Err(e) => Err(e),
                    Ok(i4) => match vector_at(s, toks, i4) {
                        Err(e) => Err(e),
                        Ok((origin, i5)) => Ok(
                            (ConstraintDeclView::PrismaticLink { joints, link, origin }, i5),
                        ),
                    },
                },
            },
        },
    }
}

/// The unit that stands at `i`, if one does, and where reading goes on.
pub open spec fn unit_at(s: Seq<u8>, toks: Seq<Token>, i: usize) -> (AngleUnit, usize) {
    if is_word(s, toks, i, "deg"@) || is_word(s, toks, i, "degrees"@) {
        (AngleUnit::Degrees, next(i))
    } else if is_word(s, toks, i, "rad"@) || is_word(s, toks, i, "radians"@) {
        (AngleUnit::Radians, next(i))
    } else {
        (AngleUnit::Radians, i)
    }
}

/// The rest of a fixed-angle constraint, after its first word.
pub open spec fn fixed_angle_at(s: Seq<u8>, toks: Seq<Token>, i: usize) -> Result<
    (ConstraintDeclView, usize),
    ParseError,
> {
    match symbol_at(toks, i, TokenKind::LParen, Expected::LParen) {
        Err(e) => Err(e),
        Ok(i1) => match name_at(s, toks, i1) {
            Err(e) => Err(e),
            Ok((joint_a, i2)) => match comma_name_at(s, toks, i2) {
                Err(e) => Err(e),
                Ok((pivot, i3)) => match comma_name_at(s, toks, i3) {
                    Err(e) => Err(e),
                    Ok((joint_c, i4)) => match symbol_at(
                        toks,
                        i4,
                        TokenKind::RParen,
                        Expected::RParen,
                    ) {
                        Err(e) => Err(e),
                        Ok(i5) => match symbol_at(toks, i5, TokenKind::Equals, Expected::Equals) {
                            Err(e) => Err(e),
                            Ok(i6) => match number_at(s, toks, i6) {
                                Err(e) => Err(e),
                                Ok((angle, i7)) => Ok(
                                    (
                                        ConstraintDeclView::FixedAngle {
                                            joint_a,
                                            pivot,
                                            joint_c,
                                            angle,
                                            unit: unit_at(s, toks, i7).0,
                                        },
                                        unit_at(s, toks, i7).1,
                                    ),
                                ),
                            },
                        },
                    },
                },
            },
        },
    }
}

/// The rest of a revolute constraint, after its first word.
pub open spec fn revolute_at(s: Seq<u8>, toks: Seq<Token>, i: usize) -> Result<
    (ConstraintDeclView, usize),
    ParseError,
> {
    match pair_at(s, toks, i) {
        Err(e) => Err(e),
        Ok(((joint_a, joint_b), i1)) => match parameter_at(s, toks, i1, "axis"@, Expected::Axis) {
            Err(e) => Err(e),
            Ok(i2) => match direction_at(s, toks, i2) {
                Err(e) => Err(e),
                Ok((axis, i3)) => match parameter_at(s, toks, i3, "min"@, Expected::Min) {
                    Err(e) => Err(e),
                    Ok(i4) => match number_at(s, toks, i4) {
                        Err(e) => Err(e),
                        Ok((min_angle, i5)) => match parameter_at(
                            s,
                            toks,
                            i5,
                            "max"@,
                            Expected::Max,
                        ) {
                            Err(e) => Err(e),
                            Ok(i6) => match number_at(s, toks, i6) {
                                Err(e) => Err(e),
                                Ok((max_angle, i7)) => Ok(
                                    (
                                        ConstraintDeclView::Revolute {
                                            joint_a,
                                            joint_b,
                                            axis,
                                            min_angle,
                                            max_angle,
                                        },
                                        i7,
                                    ),
                                ),
                            },
                        },
                    },
                },
            },
        },
    }
}

/// The constraint whose first word stands at `i`, if that word begins one.
#[verifier::opaque]
pub open spec fn constraint_at(s: Seq<u8>, toks: Seq<Token>, i: usize) -> Result<
    (ConstraintDeclView, usize),
    ParseError,
> {
    if is_word(s, toks, i, "distance"@) {
        distance_at(s, toks, next(i))
    } else if is_word(s, toks, i, "fixed"@) {
        fixed_at(s, toks, next(i))
    } else if is_word(s, toks, i, "plane"@) {
        plane_at(s, toks, next(i))
    } else if is_word(s, toks, i, "prismatic_vector"@) {
        prismatic_vector_at(s, toks, next(i))
    } else if is_word(s, toks, i, "prismatic_link"@) {
        prismatic_link_at(s, toks, next(i))
    } else if is_word(s, toks, i, "fixed_angle"@) {
        fixed_angle_at(s, toks, next(i))
    } else if is_word(s, toks, i, "revolute"@) {
        revolute_at(s, toks, next(i))
    } else {
        Err(failure(toks, i, Expected::Statement))
    }
}

/// The declaration that starts at `i`.
#[verifier::opaque]
pub open spec fn statement_at(s: Seq<u8>, toks: Seq<Token>, i: usize) -> Result<
    (StatementView, usize),
    ParseError,
> {
    if is_word(s, toks, i, "joint"@) {
        match joint_at(s, toks, next(i)) {
            Err(e) => Err(e),
            Ok((joint, j)) => Ok((StatementView::Joint(joint), j)),
        }
    } else if is_word(s, toks, i, "link"@) {
        match link_at(s, toks, next(i)) {
            Err(e) => Err(e),
            Ok((link, j)) => Ok((StatementView::Link(link), j)),
        }
    } else {
        match constraint_at(s, toks, i) {
            Err(e) => Err(e),
            Ok((constraint, j)) => Ok((StatementView::Constraint(constraint), j)),
        }
    }
}

/// The program with one more declaration, at the end of those of its kind.
pub open spec fn with_statement(program: ProgramView, statement: StatementView) -> ProgramView {
    match statement {
        StatementView::Joint(joint) => ProgramView { joints: program.joints.push(joint), ..program },
        StatementView::Link(link) => ProgramView { links: program.links.push(link), ..program },
        StatementView::Constraint(constraint) => ProgramView {
            constraints: program.constraints.push(constraint),
            ..program
        },
    }
}

/// The declarations from `i` up to the closing brace, added to `program`.
pub open spec fn statements_at(s: Seq<u8>, toks: Seq<Token>, i: usize, program: ProgramView) -> Result<
    (ProgramView, usize),
    ParseError,
>
    decreases toks.len() - i,
{
    if i >= toks.len() || toks[i as int].kind == TokenKind::RBrace {
        Ok((program, next(i)))
    } else {
        match statement_at(s, toks, i) {
            Err(e) => Err(e),
            Ok((statement, j)) => if i < j <= toks.len() {
                statements_at(s, toks, j, with_statement(program, statement))
            } else {
                Ok((program, i))
            },
        }
    }
}

/// The program of a name without declarations.
pub open spec fn empty_program(sim_name: Seq<char>) -> ProgramView {
    ProgramView { sim_name, joints: Seq::empty(), links: Seq::empty(), constraints: Seq::empty() }
}

/// The description that the tokens spell.
pub open spec fn program_of(s: Seq<u8>, toks: Seq<Token>) -> Result<ProgramView, ParseError> {
    match word_at(s, toks, 0, "sim"@, Expected::Header) {
        Err(e) => Err(e),
        Ok(i1) => match name_at(s, toks, i1) {
            Err(e) => Err(e),
            Ok((sim_name, i2)) => match symbol_at(toks, i2, TokenKind::LBrace, Expected::LBrace) {
                Err(e) => Err(e),
                Ok(i3) => match statements_at(s, toks, i3, empty_program(sim_name)) {
                    Err(e) => Err(e),
                    Ok((program, i4)) => if toks[i4 as int].kind == TokenKind::End {
                        Ok(program)
                    } else {
                        Err(failure(toks, i4, Expected::End))
                    },
                },
            },
        },
    }
}

/// The description that a text spells, or the first place where it is none.
pub open spec fn parsed(s: Seq<u8>) -> Result<ProgramView, ParseError> {
    program_of(s, tokens(s, 0))
}

/// The result `r` of reading at a place is what the grammar gives there.
pub open spec fn agrees<T: DeepView>(
    r: Result<(T, usize), ParseError>,
    expected: Result<(T::V, usize), ParseError>,
) -> bool {
    match r {
        Ok((v, j)) => expected == Ok::<(T::V, usize), ParseError>((v.deep_view(), j)),
        Err(e) => expected == Err::<(T::V, usize), ParseError>(e),
    }
}

/// Reading that began at `i` and succeeded has moved on, and not past the last token.
pub open spec fn advances<T>(r: Result<(T, usize), ParseError>, i: usize, len: nat) -> bool {
    match r {
        Ok((_, j)) => i < j < len,
        Err(_) => true,
    }
}

/// Reading that began at `i` and succeeded has moved on, and not past the last token.
pub open spec fn moves(r: Result<usize, ParseError>, i: usize, len: nat) -> bool {
    match r {
        Ok(j) => i < j < len,
        Err(_) => true,
    }
}

/// The characters of a name or a number.
fn token_text(bytes: &[u8], t: Token) -> (text: String)
    requires
        t.start <= t.end <= bytes@.len(),
        forall|k: int| t.start <= k < t.end ==> #[trigger] byte_of(bytes@, t, k) < 128,
    ensures
        text@ == text_of(bytes@, t),
{
    let mut text = String::new();
    let mut k: usize = t.start;
    while k < t.end
        invariant
            t.start <= k <= t.end <= bytes@.len(),
            forall|k: int| t.start <= k < t.end ==> #[trigger] byte_of(bytes@, t, k) < 128,
            text@ == Seq::new((k - t.start) as nat, |i: int| bytes@[t.start + i] as char),
        decreases t.end - k,
    {
        let b = bytes[k];
        assert(byte_of(bytes@, t, k as int) < 128);
        let ghost before = text@;
        push_char(&mut text, b as char);
        assert(text@ =~= Seq::new((k + 1 - t.start) as nat, |i: int| bytes@[t.start + i] as char));
        k += 1;
    }
    text
}

fn same_text(text: &String, word: &str) -> (same: bool)
    ensures
        same == (text@ == word@),
{
    let other = String::from_str(word);
    *text == other
}

fn check_word(bytes: &[u8], toks: &Vec<Token>, i: usize, word: &str) -> (found: bool)
    requires
        well_formed(toks@, bytes@),
        i < toks.len(),
    ensures
        found == is_word(bytes@, toks@, i, word@),
        found ==> i + 1 < toks.len(),
{
    let t = toks[i];
    if t.kind == TokenKind::Ident {
        assert forall|k: int| t.start <= k < t.end implies #[trigger] byte_of(bytes@, t, k)
            < 128 by {
            assert(byte_of(bytes@, toks@[i as int], k) < 128);
        }
        let text = token_text(bytes, t);
        same_text(&text, word)
    } else {
        false
    }
}

fn expect_symbol(toks: &Vec<Token>, i: usize, kind: TokenKind, expected: Expected) -> (r: Result<
    usize,
    ParseError,
>)
    requires
        toks@.len() > 0,
        forall|k: int| 0 <= k < toks@.len() - 1 ==> !is_terminal(#[trigger] toks@[k].kind),
        is_terminal(toks@.last().kind),
        i < toks.len(),
        !is_terminal(kind),
    ensures
        r == symbol_at(toks@, i, kind, expected),
        moves(r, i, toks@.len()),
{
    let t = toks[i];
    if t.kind == kind {
        Ok(i + 1)
    } else {
        Err(ParseError { offset: t.start, expected })
    }
}

fn expect_word(bytes: &[u8], toks: &Vec<Token>, i: usize, word: &str, expected: Expected) -> (r:
    Result<usize, ParseError>)
    requires
        well_formed(toks@, bytes@),
        i < toks.len(),
    ensures
        r == word_at(bytes@, toks@, i, word@, expected),
        moves(r, i, toks@.len()),
{
    if check_word(bytes, toks, i, word) {
        Ok(i + 1)
    } else {
        Err(ParseError { offset: toks[i].start, expected })
    }
}

fn expect_parameter(bytes: &[u8], toks: &Vec<Token>, i: usize, word: &str, expected: Expected) -> (r:
    Result<usize, ParseError>)
    requires
        well_formed(toks@, bytes@),
        i < toks.len(),
    ensures
        r == parameter_at(bytes@, toks@, i, word@, expected),
        moves(r, i, toks@.len()),
{
    let i1 = expect_word(bytes, toks, i, word, expected)?;
    expect_symbol(toks, i1, TokenKind::Equals, Expected::Equals)
}

fn parse_name(bytes: &[u8], toks: &Vec<Token>, i: usize) -> (r: Result<(String, usize), ParseError>)
    requires
        well_formed(toks@, bytes@),
        i < toks.len(),
    ensures
        agrees(r, name_at(bytes@, toks@, i)),
        advances(r, i, toks@.len()),
{
    let t = toks[i];
    if t.kind == TokenKind::Ident {
        assert forall|k: int| t.start <= k < t.end implies #[trigger] byte_of(bytes@, t, k)
            < 128 by {
            assert(byte_of(bytes@, toks@[i as int], k) < 128);
        }
        Ok((token_text(bytes, t), i + 1))
    } else {
        Err(ParseError { offset: t.start, expected: Expected::Name })
    }
}

fn parse_number(bytes: &[u8], toks: &Vec<Token>, i: usize) -> (r: Result<
    (Literal, usize),
    ParseError,
>)
    requires
        well_formed(toks@, bytes@),
        i < toks.len(),
    ensures
        agrees(r, number_at(bytes@, toks@, i)),
        advances(r, i, toks@.len()),
{
    let t = toks[i];
    if t.kind == TokenKind::Number {
        assert forall|k: int| t.start <= k < t.end implies #[trigger] byte_of(bytes@, t, k)
            < 128 by {
            assert(byte_of(bytes@, toks@[i as int], k) < 128);
        }
        Ok((Literal { text: token_text(bytes, t) }, i + 1))
    } else {
        Err(ParseError { offset: t.start, expected: Expected::Number })
    }
}

fn parse_comma_name(bytes: &[u8], toks: &Vec<Token>, i: usize) -> (r: Result<
    (String, usize),
    ParseError,
>)
    requires
        well_formed(toks@, bytes@),
        i < toks.len(),
    ensures
        agrees(r, comma_name_at(bytes@, toks@, i)),
        advances(r, i, toks@.len()),
{
    let i1 = expect_symbol(toks, i, TokenKind::Comma, Expected::Comma)?;
    parse_name(bytes, toks, i1)
}

fn parse_comma_number(bytes: &[u8], toks: &Vec<Token>, i: usize) -> (r: Result<
    (Literal, usize),
    ParseError,
>)
    requires
        well_formed(toks@, bytes@),
        i < toks.len(),
    ensures
        agrees(r, comma_number_at(bytes@, toks@, i)),
        advances(r, i, toks@.len()),
{
    let i1 = expect_symbol(toks, i, TokenKind::Comma, Expected::Comma)?;
    parse_number(bytes, toks, i1)
}

fn parse_vector(bytes: &[u8], toks: &Vec<Token>, i: usize) -> (r: Result<
    (VectorLiteral, usize),
    ParseError,
>)
    requires
        well_formed(toks@, bytes@),
        i < toks.len(),
    ensures
        agrees(r, vector_at(bytes@, toks@, i)),
        advances(r, i, toks@.len()),
{
    let i1 = expect_symbol(toks, i, TokenKind::LParen, Expected::LParen)?;
    let (x, i2) = parse_number(bytes, toks, i1)?;
    let (y, i3) = parse_comma_number(bytes, toks, i2)?;
    let (z, i4) = parse_comma_number(bytes, toks, i3)?;
    let i5 = expect_symbol(toks, i4, TokenKind::RParen, Expected::RParen)?;
    Ok((VectorLiteral { x, y, z }, i5))
}

fn parse_direction(bytes: &[u8], toks: &Vec<Token>, i: usize) -> (r: Result<
    (Axis, usize),
    ParseError,
>)
    requires
        well_formed(toks@, bytes@),
        i < toks.len(),
    ensures
        agrees(r, direction_at(bytes@, toks@, i)),
        advances(r, i, toks@.len()),
{
    if check_word(bytes, toks, i, "X") {
        Ok((Axis::X, i + 1))
    } else if check_word(bytes, toks, i, "Y") {
        Ok((Axis::Y, i + 1))
    } else if check_word(bytes, toks, i, "Z") {
        Ok((Axis::Z, i + 1))
    } else if toks[i].kind == TokenKind::LParen {
        let (v, j) = parse_vector(bytes, toks, i)?;
        Ok((Axis::Vector(v), j))
    } else {
        Err(ParseError { offset: toks[i].start, expected: Expected::Direction })
    }
}

/// Reads one or more names with commas between them.
pub fn parse_identifier_list(bytes: &[u8], toks: &Vec<Token>, i: usize) -> (r: Result<
    (Vec<String>, usize),
    ParseError,
>)
    requires
        well_formed(toks@, bytes@),
        i < toks.len(),
    ensures
        agrees(r, names_at(bytes@, toks@, i)),
        advances(r, i, toks@.len()),
{
    let (first, i1) = parse_name(bytes, toks, i)?;
    let mut names: Vec<String> = Vec::new();
    names.push(first);
    assert(names.deep_view() =~= seq![first@]);
    let mut j: usize = i1;
    while toks[j].kind == TokenKind::Comma
        invariant
            well_formed(toks@, bytes@),
            i < j < toks.len(),
            names_at(bytes@, toks@, i) == more_names_at(bytes@, toks@, j, names.deep_view()),
        decreases toks.len() - j,
    {
        let ghost before = names.deep_view();
        let (name, j1) = parse_comma_name(bytes, toks, j)?;
        names.push(name);
        assert(names.deep_view() =~= before.push(name@));
        j = j1;
    }
    Ok((names, j))
}

fn parse_group(bytes: &[u8], toks: &Vec<Token>, i: usize) -> (r: Result<
    (Vec<String>, usize),
    ParseError,
>)
    requires
        well_formed(toks@, bytes@),
        i < toks.len(),
    ensures
        agrees(r, group_at(bytes@, toks@, i)),
        advances(r, i, toks@.len()),
{
    let i1 = expect_symbol(toks, i, TokenKind::LParen, Expected::LParen)?;
    let (names, i2) = parse_identifier_list(bytes, toks, i1)?;
    let i3 = expect_symbol(toks, i2, TokenKind::RParen, Expected::RParen)?;
    Ok((names, i3))
}

fn parse_pair(bytes: &[u8], toks: &Vec<Token>, i: usize) -> (r: Result<
    ((String, String), usize),
    ParseError,
>)
    requires
        well_formed(toks@, bytes@),
        i < toks.len(),
    ensures
        agrees(r, pair_at(bytes@, toks@, i)),
        advances(r, i, toks@.len()),
{
    let i1 = expect_symbol(toks, i, TokenKind::LParen, Expected::LParen)?;
    let (a, i2) = parse_name(bytes, toks, i1)?;
    let (b, i3) = parse_comma_name(bytes, toks, i2)?;
    let i4 = expect_symbol(toks, i3, TokenKind::RParen, Expected::RParen)?;
    Ok(((a, b), i4))
}

/// Reads a joint declaration from its name on.
pub fn parse_joint_decl(bytes: &[u8], toks: &Vec<Token>, i: usize) -> (r: Result<
    (JointDecl, usize),
    ParseError,
>)
    requires
        well_formed(toks@, bytes@),
        i < toks.len(),
    ensures
        agrees(r, joint_at(bytes@, toks@, i)),
        advances(r, i, toks@.len()),
{
    let (name, i1) = parse_name(bytes, toks, i)?;
    let (x, i2) = parse_comma_number(bytes, toks, i1)?;
    let (y, i3) = parse_comma_number(bytes, toks, i2)?;
    if toks[i3].kind == TokenKind::Comma {
        let (z, i4) = parse_comma_number(bytes, toks, i3)?;
        Ok((JointDecl { name, x, y, z: Some(z) }, i4))
    } else {
        Ok((JointDecl { name, x, y, z: None }, i3))
    }
}

/// Reads a link declaration from its name on.
pub fn parse_link_decl(bytes: &[u8], toks: &Vec<Token>, i: usize) -> (r: Result<
    (LinkDecl, usize),
    ParseError,
>)
    requires
        well_formed(toks@, bytes@),
        i < toks.len(),
    ensures
        agrees(r, link_at(bytes@, toks@, i)),
        advances(r, i, toks@.len()),
{
    let (name, i1) = parse_name(bytes, toks, i)?;
    let (joint_a, i2) = parse_comma_name(bytes, toks, i1)?;
    let (joint_b, i3) = parse_comma_name(bytes, toks, i2)?;
    Ok((LinkDecl { name, joint_a, joint_b }, i3))
}

fn parse_distance(bytes: &[u8], toks: &Vec<Token>, i: usize) -> (r: Result<
    (ConstraintDecl, usize),
    ParseError,
>)
    requires
        well_formed(toks@, bytes@),
        i < toks.len(),
    ensures
        agrees(r, distance_at(bytes@, toks@, i)),
        advances(r, i, toks@.len()),
{
    let ((a, b), i1) = parse_pair(bytes, toks, i)?;
    let i2 = expect_symbol(toks, i1, TokenKind::Equals, Expected::Equals)?;
    let (value, i3) = parse_number(bytes, toks, i2)?;
    Ok((ConstraintDecl::Distance { a, b, value }, i3))
}

fn parse_fixed(bytes: &[u8], toks: &Vec<Token>, i: usize) -> (r: Result<
    (ConstraintDecl, usize),
    ParseError,
>)
    requires
        well_formed(toks@, bytes@),
        i < toks.len(),
    ensures
        agrees(r, fixed_at(bytes@, toks@, i)),
        advances(r, i, toks@.len()),
{
    let (joints, i1) = parse_group(bytes, toks, i)?;
    Ok((ConstraintDecl::Fixed { joints }, i1))
}

fn parse_plane(bytes: &[u8], toks: &Vec<Token>, i: usize) -> (r: Result<
    (ConstraintDecl, usize),
    ParseError,
>)
    requires
        well_formed(toks@, bytes@),
        i < toks.len(),
    ensures
        agrees(r, plane_at(bytes@, toks@, i)),
        advances(r, i, toks@.len()),
{
    let (joints, i1) = parse_group(bytes, toks, i)?;
    let i2 = expect_parameter(bytes, toks, i1, "normal", Expected::Normal)?;
    let (normal, i3) = parse_direction(bytes, toks, i2)?;
    if check_word(bytes, toks, i3, "point") {
        let i4 = expect_symbol(toks, i3 + 1, TokenKind::Equals, Expected::Equals)?;
        let (point, i5) = parse_vector(bytes, toks, i4)?;
        Ok((ConstraintDecl::Plane { joints, normal, point: Some(point) }, i5))
    } else {
        Ok((ConstraintDecl::Plane { joints, normal, point: None }, i3))
    }
}

fn parse_prismatic_vector(bytes: &[u8], toks: &Vec<Token>, i: usize) -> (r: Result<
    (ConstraintDecl, usize),
    ParseError,
>)
    requires
        well_formed(toks@, bytes@),
        i < toks.len(),
    ensures
        agrees(r, prismatic_vector_at(bytes@, toks@, i)),
        advances(r, i, toks@.len()),
{
    let (joints, i1) = parse_group(bytes, toks, i)?;
    let i2 = expect_parameter(bytes, toks, i1, "axis", Expected::Axis)?;
    let (axis, i3) = parse_direction(bytes, toks, i2)?;
    let i4 = expect_parameter(bytes, toks, i3, "origin", Expected::Origin)?;
    let (origin, i5) = parse_vector(bytes, toks, i4)?;
    Ok((ConstraintDecl::PrismaticVector { joints, axis, origin }, i5))
}

fn parse_prismatic_link(bytes: &[u8], toks: &Vec<Token>, i: usize) -> (r: Result<
    (ConstraintDecl, usize),
    ParseError,
>)
    requires
        well_formed(toks@, bytes@),
        i < toks.len(),
    ensures
        agrees(r, prismatic_link_at(bytes@, toks@, i)),
        advances(r, i, toks@.len()),
{
    let (joints, i1) = parse_group(bytes, toks, i)?;
    let i2 = expect_parameter(bytes, toks, i1, "link", Expected::Link)?;
    let (link, i3) = parse_name(bytes, toks, i2)?;
    let i4 = expect_parameter(bytes, toks, i3, "origin", Expected::Origin)?;
    let (origin, i5) = parse_vector(bytes, toks, i4)?;
    Ok((ConstraintDecl::PrismaticLink { joints, link, origin }, i5))
}

fn parse_unit(bytes: &[u8], toks: &Vec<Token>, i: usize) -> (r: (AngleUnit, usize))
    requires
        well_formed(toks@, bytes@),
        i < toks.len(),
    ensures
        r == unit_at(bytes@, toks@, i),
        i <= r.1 < toks.len(),
{
    if check_word(bytes, toks, i, "deg") || check_word(bytes, toks, i, "degrees") {
        (AngleUnit::Degrees, i + 1)
    } else if check_word(bytes, toks, i, "rad") || check_word(bytes, toks, i, "radians") {
        (AngleUnit::Radians, i + 1)
    } else {
        (AngleUnit::Radians, i)
    }
}

fn parse_fixed_angle(bytes: &[u8], toks: &Vec<Token>, i: usize) -> (r: Result<
    (ConstraintDecl, usize),
    ParseError,
>)
    requires
        well_formed(toks@, bytes@),
        i < toks.len(),
    ensures
        agrees(r, fixed_angle_at(bytes@, toks@, i)),
        advances(r, i, toks@.len()),
{
    let i1 = expect_symbol(toks, i, TokenKind::LParen, Expected::LParen)?;
    let (joint_a, i2) = parse_name(bytes, toks, i1)?;
    let (pivot, i3) = parse_comma_name(bytes, toks, i2)?;
    let (joint_c, i4) = parse_comma_name(bytes, toks, i3)?;
    let i5 = expect_symbol(toks, i4, TokenKind::RParen, Expected::RParen)?;
    let i6 = expect_symbol(toks, i5, TokenKind::Equals, Expected::Equals)?;
    let (angle, i7) = parse_number(bytes, toks, i6)?;
    let (unit, i8) = parse_unit(bytes, toks, i7);
    Ok((ConstraintDecl::FixedAngle { joint_a, pivot, joint_c, angle, unit }, i8))
}

fn parse_revolute(bytes: &[u8], toks: &Vec<Token>, i: usize) -> (r: Result<
    (ConstraintDecl, usize),
    ParseError,
>)
    requires
        well_formed(toks@, bytes@),
        i < toks.len(),
    ensures
        agrees(r, revolute_at(bytes@, toks@, i)),
        advances(r, i, toks@.len()),
{
    let ((joint_a, joint_b), i1) = parse_pair(bytes, toks, i)?;
    let i2 = expect_parameter(bytes, toks, i1, "axis", Expected::Axis)?;
    let (axis, i3) = parse_direction(bytes, toks, i2)?;
    let i4 = expect_parameter(bytes, toks, i3, "min", Expected::Min)?;
    let (min_angle, i5) = parse_number(bytes, toks, i4)?;
    let i6 = expect_parameter(bytes, toks, i5, "max", Expected::Max)?;
    let (max_angle, i7) = parse_number(bytes, toks, i6)?;
    Ok((ConstraintDecl::Revolute { joint_a, joint_b, axis, min_angle, max_angle }, i7))
}

/// Reads a constraint from its first word on.
pub fn parse_constraint_decl(bytes: &[u8], toks: &Vec<Token>, i: usize) -> (r: Result<
    (ConstraintDecl, usize),
    ParseError,
>)
    requires
        well_formed(toks@, bytes@),
        i < toks.len(),
    ensures
        agrees(r, constraint_at(bytes@, toks@, i)),
        advances(r, i, toks@.len()),
{
    reveal(constraint_at);
    if check_word(bytes, toks, i, "distance") {
        parse_distance(bytes, toks, i + 1)
    } else if check_word(bytes, toks, i, "fixed") {
        parse_fixed(bytes, toks, i + 1)
    } else if check_word(bytes, toks, i, "plane") {
        parse_plane(bytes, toks, i + 1)
    } else if check_word(bytes, toks, i, "prismatic_vector") {
        parse_prismatic_vector(bytes, toks, i + 1)
    } else if check_word(bytes, toks, i, "prismatic_link") {
        parse_prismatic_link(bytes, toks, i + 1)
    } else if check_word(bytes, toks, i, "fixed_angle") {
        parse_fixed_angle(bytes, toks, i + 1)
    } else if check_word(bytes, toks, i, "revolute") {
        parse_revolute(bytes, toks, i + 1)
    } else {
        Err(ParseError { offset: toks[i].start, expected: Expected::Statement })
    }
}

fn parse_statement(bytes: &[u8], toks: &Vec<Token>, i: usize) -> (r: Result<
    (Statement, usize),
    ParseError,
>)
    requires
        well_formed(toks@, bytes@),
        i < toks.len(),
    ensures
        agrees(r, statement_at(bytes@, toks@, i)),
        advances(r, i, toks@.len()),
{
    reveal(statement_at);
    if check_word(bytes, toks, i, "joint") {
        let (joint, j) = parse_joint_decl(bytes, toks, i + 1)?;
        Ok((Statement::Joint(joint), j))
    } else if check_word(bytes, toks, i, "link") {
        let (link, j) = parse_link_decl(bytes, toks, i + 1)?;
        Ok((Statement::Link(link), j))
    } else {
        let (constraint, j) = parse_constraint_decl(bytes, toks, i)?;
        Ok((Statement::Constraint(constraint), j))
    }
}

/// Reads a whole description from its tokens.
pub fn parse_program(bytes: &[u8], toks: &Vec<Token>) -> (r: Result<Program, ParseError>)
    requires
        well_formed(toks@, bytes@),
    ensures
        match r {
            Ok(program) => program_of(bytes@, toks@) == Ok::<ProgramView, ParseError>(
                program.deep_view(),
            ),
            Err(e) => program_of(bytes@, toks@) == Err::<ProgramView, ParseError>(e),
        },
{
    let i1 = expect_word(bytes, toks, 0, "sim", Expected::Header)?;
    let (sim_name, i2) = parse_name(bytes, toks, i1)?;
    let i3 = expect_symbol(toks, i2, TokenKind::LBrace, Expected::LBrace)?;
    let mut program = Program {
        sim_name,
        joints: Vec::new(),
        links: Vec::new(),
        constraints: Vec::new(),
    };
    assert(program.deep_view() =~= empty_program(sim_name@)) by {
        assert(program.joints.deep_view() =~= Seq::empty());
        assert(program.links.deep_view() =~= Seq::empty());
        assert(program.constraints.deep_view() =~= Seq::empty());
    }
    let mut j: usize = i3;
    while toks[j].kind != TokenKind::RBrace
        invariant
            well_formed(toks@, bytes@),
            j < toks.len(),
            word_at(bytes@, toks@, 0, "sim"@, Expected::Header) == Ok::<usize, ParseError>(i1),
            name_at(bytes@, toks@, i1) == Ok::<(Seq<char>, usize), ParseError>((sim_name@, i2)),
            symbol_at(toks@, i2, TokenKind::LBrace, Expected::LBrace) == Ok::<usize, ParseError>(
                i3,
            ),
            statements_at(bytes@, toks@, i3, empty_program(sim_name@)) == statements_at(
                bytes@,
                toks@,
                j,
                program.deep_view(),
            ),
        decreases toks.len() - j,
    {
        let ghost before = program.deep_view();
        let (statement, j1) = parse_statement(bytes, toks, j)?;
        let ghost added = statement.deep_view();
        match statement {
            Statement::Joint(joint) => {
                program.joints.push(joint);
                assert(program.joints.deep_view() =~= before.joints.push(joint.deep_view()));
            },
            Statement::Link(link) => {
                program.links.push(link);
                assert(program.links.deep_view() =~= before.links.push(link.deep_view()));
            },
            Statement::Constraint(constraint) => {
                program.constraints.push(constraint);
                assert(program.constraints.deep_view() =~= before.constraints.push(
                    constraint.deep_view(),
                ));
            },
        }
        assert(program.deep_view() == with_statement(before, added));
        j = j1;
    }
    let end = toks[j + 1];
    if end.kind == TokenKind::End {
        Ok(program)
    } else {
        Err(ParseError { offset: end.start, expected: Expected::End })
    }
}

/// The reader of mechanism descriptions.
pub struct UgokuParser;

impl UgokuParser {
    /// Reads a description. The result is the one that the grammar gives to
    /// the text: the syntax tree, or the first place where the text departs
    /// from the grammar.
    pub fn parse_dsl(input: &str) -> (r: Result<Program, ParseError>)
        ensures
            match r {
                Ok(program) => parsed(input.spec_bytes()) == Ok::<ProgramView, ParseError>(
                    program.deep_view(),
                ),
                Err(e) => parsed(input.spec_bytes()) == Err::<ProgramView, ParseError>(e),
            },
    {
        let bytes = input.as_bytes();
        let toks = tokenize(bytes);
        parse_program(bytes, &toks)
    }
}

} // verus!
