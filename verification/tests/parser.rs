use ugoku::dsl::ast::{AngleUnit, Axis, ConstraintDecl, Program};
use ugoku::dsl::lexer::{tokenize, Token, TokenKind};
use ugoku::dsl::parser::{
    parse_constraint_decl, parse_identifier_list, parse_joint_decl, parse_link_decl,
    parse_program, Expected, Location, ParseError, UgokuParser,
};
use ugoku::text::push_decimal;

fn parse(text: &str) -> Program {
    match UgokuParser::parse_dsl(text) {
        Ok(program) => program,
        Err(e) => panic!("{:?} in {:?}", e, text),
    }
}

fn failure(text: &str) -> ParseError {
    match UgokuParser::parse_dsl(text) {
        Ok(_) => panic!("{:?} was read", text),
        Err(e) => e,
    }
}

fn only_constraint(statement: &str) -> ConstraintDecl {
    let text = format!("sim s {{ {} }}", statement);
    let mut program = parse(&text);
    assert_eq!(program.joints.len(), 0);
    assert_eq!(program.links.len(), 0);
    assert_eq!(program.constraints.len(), 1);
    program.constraints.remove(0)
}

fn kinds(text: &str) -> Vec<TokenKind> {
    tokenize(text.as_bytes()).iter().map(|t| t.kind).collect()
}

#[test]
fn tokens_of_empty_text() {
    assert_eq!(tokenize(b""), vec![Token { kind: TokenKind::End, start: 0, end: 0 }]);
    assert_eq!(tokenize(b" \t\r\n"), vec![Token { kind: TokenKind::End, start: 4, end: 4 }]);
}

#[test]
fn tokens_cover_their_text() {
    let toks = tokenize(b"joint A_1, -2.50,7");
    assert_eq!(
        toks,
        vec![
            Token { kind: TokenKind::Ident, start: 0, end: 5 },
            Token { kind: TokenKind::Ident, start: 6, end: 9 },
            Token { kind: TokenKind::Comma, start: 9, end: 10 },
            Token { kind: TokenKind::Number, start: 11, end: 16 },
            Token { kind: TokenKind::Comma, start: 16, end: 17 },
            Token { kind: TokenKind::Number, start: 17, end: 18 },
            Token { kind: TokenKind::End, start: 18, end: 18 },
        ]
    );
}

#[test]
fn tokens_of_punctuation() {
    assert_eq!(
        kinds("(){},="),
        vec![
            TokenKind::LParen,
            TokenKind::RParen,
            TokenKind::LBrace,
            TokenKind::RBrace,
            TokenKind::Comma,
            TokenKind::Equals,
            TokenKind::End,
        ]
    );
}

#[test]
fn number_takes_a_point_only_before_a_digit() {
    assert_eq!(
        tokenize(b"1.5"),
        vec![
            Token { kind: TokenKind::Number, start: 0, end: 3 },
            Token { kind: TokenKind::End, start: 3, end: 3 },
        ]
    );
    assert_eq!(
        tokenize(b"1."),
        vec![
            Token { kind: TokenKind::Number, start: 0, end: 1 },
            Token { kind: TokenKind::Invalid, start: 1, end: 2 },
        ]
    );
    assert_eq!(
        tokenize(b"1.2.3"),
        vec![
            Token { kind: TokenKind::Number, start: 0, end: 3 },
            Token { kind: TokenKind::Invalid, start: 3, end: 4 },
        ]
    );
}

#[test]
fn minus_begins_a_number_only_before_a_digit() {
    assert_eq!(kinds("-1"), vec![TokenKind::Number, TokenKind::End]);
    assert_eq!(kinds("-"), vec![TokenKind::Invalid]);
    assert_eq!(kinds("-x"), vec![TokenKind::Invalid]);
    assert_eq!(kinds("- 1"), vec![TokenKind::Invalid]);
}

#[test]
fn number_and_unit_are_two_tokens() {
    assert_eq!(
        tokenize(b"90deg"),
        vec![
            Token { kind: TokenKind::Number, start: 0, end: 2 },
            Token { kind: TokenKind::Ident, start: 2, end: 5 },
            Token { kind: TokenKind::End, start: 5, end: 5 },
        ]
    );
}

#[test]
fn nothing_follows_an_invalid_byte() {
    assert_eq!(
        tokenize(b"a ; b"),
        vec![
            Token { kind: TokenKind::Ident, start: 0, end: 1 },
            Token { kind: TokenKind::Invalid, start: 2, end: 3 },
        ]
    );
    assert_eq!(kinds("\u{e9}"), vec![TokenKind::Invalid]);
}

#[test]
fn empty_program() {
    let program = parse("sim empty { }");
    assert_eq!(program.sim_name, "empty");
    assert!(program.joints.is_empty());
    assert!(program.links.is_empty());
    assert!(program.constraints.is_empty());
}

#[test]
fn joint_in_the_plane_and_in_space() {
    let program = parse("sim s { joint A, 1, -2.5 joint B, 0.25, 3, -4 }");
    assert_eq!(program.joints.len(), 2);
    assert_eq!(program.joints[0].name, "A");
    assert_eq!(program.joints[0].x.text, "1");
    assert_eq!(program.joints[0].y.text, "-2.5");
    assert!(program.joints[0].z.is_none());
    assert_eq!(program.joints[1].name, "B");
    assert_eq!(program.joints[1].x.text, "0.25");
    assert_eq!(program.joints[1].y.text, "3");
    assert_eq!(program.joints[1].z.as_ref().unwrap().text, "-4");
}

#[test]
fn link_keeps_the_order_of_its_joints() {
    let program = parse("sim s { link L, B, A }");
    assert_eq!(program.links.len(), 1);
    assert_eq!(program.links[0].name, "L");
    assert_eq!(program.links[0].joint_a, "B");
    assert_eq!(program.links[0].joint_b, "A");
}

#[test]
fn declarations_keep_their_order_by_kind() {
    let program = parse(
        "sim mixed {\n  fixed(A)\n  joint A, 0, 0\n  link L, A, B\n  joint B, 1, 0\n  distance(A, B) = 1\n}\n",
    );
    assert_eq!(program.sim_name, "mixed");
    let joints: Vec<&str> = program.joints.iter().map(|j| j.name.as_str()).collect();
    assert_eq!(joints, vec!["A", "B"]);
    assert_eq!(program.links.len(), 1);
    assert_eq!(program.constraints.len(), 2);
    assert_eq!(program.constraints[0].constraint_type(), "Fixed");
    assert_eq!(program.constraints[1].constraint_type(), "Distance");
}

#[test]
fn distance_constraint() {
    match only_constraint("distance(A, B) = 2.5") {
        ConstraintDecl::Distance { a, b, value } => {
            assert_eq!(a, "A");
            assert_eq!(b, "B");
            assert_eq!(value.text, "2.5");
        }
        other => panic!("{:?}", other),
    }
}

#[test]
fn fixed_constraint_lists_its_joints() {
    match only_constraint("fixed(A, B, C)") {
        ConstraintDecl::Fixed { joints } => assert_eq!(joints, vec!["A", "B", "C"]),
        other => panic!("{:?}", other),
    }
    match only_constraint("fixed(A)") {
        ConstraintDecl::Fixed { joints } => assert_eq!(joints, vec!["A"]),
        other => panic!("{:?}", other),
    }
}

#[test]
fn plane_constraint_with_axis_and_without_point() {
    match only_constraint("plane(A, B) normal=Y") {
        ConstraintDecl::Plane { joints, normal, point } => {
            assert_eq!(joints, vec!["A", "B"]);
            assert!(matches!(normal, Axis::Y));
            assert!(point.is_none());
        }
        other => panic!("{:?}", other),
    }
}

#[test]
fn plane_constraint_with_vector_and_point() {
    match only_constraint("plane(A) normal=(0, 1, 0) point=(1, 2, 3)") {
        ConstraintDecl::Plane { joints, normal, point } => {
            assert_eq!(joints, vec!["A"]);
            match normal {
                Axis::Vector(v) => {
                    assert_eq!(v.x.text, "0");
                    assert_eq!(v.y.text, "1");
                    assert_eq!(v.z.text, "0");
                }
                other => panic!("{:?}", other),
            }
            let point = point.unwrap();
            assert_eq!(point.x.text, "1");
            assert_eq!(point.y.text, "2");
            assert_eq!(point.z.text, "3");
        }
        other => panic!("{:?}", other),
    }
}

#[test]
fn prismatic_vector_constraint() {
    match only_constraint("prismatic_vector(E, F) axis=X origin=(0, 0.5, 0)") {
        ConstraintDecl::PrismaticVector { joints, axis, origin } => {
            assert_eq!(joints, vec!["E", "F"]);
            assert!(matches!(axis, Axis::X));
            assert_eq!(origin.x.text, "0");
            assert_eq!(origin.y.text, "0.5");
            assert_eq!(origin.z.text, "0");
        }
        other => panic!("{:?}", other),
    }
}

#[test]
fn prismatic_link_constraint() {
    match only_constraint("prismatic_link(E) link=AB origin=(1, 1, 1)") {
        ConstraintDecl::PrismaticLink { joints, link, origin } => {
            assert_eq!(joints, vec!["E"]);
            assert_eq!(link, "AB");
            assert_eq!(origin.x.text, "1");
        }
        other => panic!("{:?}", other),
    }
}

fn angle_of(statement: &str) -> (String, AngleUnit) {
    match only_constraint(statement) {
        ConstraintDecl::FixedAngle { joint_a, pivot, joint_c, angle, unit } => {
            assert_eq!(joint_a, "A");
            assert_eq!(pivot, "P");
            assert_eq!(joint_c, "C");
            (angle.text, unit)
        }
        other => panic!("{:?}", other),
    }
}

#[test]
fn fixed_angle_units() {
    assert_eq!(angle_of("fixed_angle(A, P, C) = 90deg"), ("90".to_string(), AngleUnit::Degrees));
    assert_eq!(
        angle_of("fixed_angle(A, P, C) = 45.5 degrees"),
        ("45.5".to_string(), AngleUnit::Degrees)
    );
    assert_eq!(angle_of("fixed_angle(A, P, C) = 1.5rad"), ("1.5".to_string(), AngleUnit::Radians));
    assert_eq!(
        angle_of("fixed_angle(A, P, C) = 2 radians"),
        ("2".to_string(), AngleUnit::Radians)
    );
    assert_eq!(angle_of("fixed_angle(A, P, C) = 3"), ("3".to_string(), AngleUnit::Radians));
}

#[test]
fn a_declaration_may_follow_an_angle_without_unit() {
    let program = parse("sim s { fixed_angle(A, P, C) = 1 joint deg, 0, 0 }");
    assert_eq!(program.constraints.len(), 1);
    assert_eq!(program.joints.len(), 1);
    assert_eq!(program.joints[0].name, "deg");
}

#[test]
fn revolute_constraint() {
    match only_constraint("revolute(P, M) axis=Z min=-0.5 max=1.25") {
        ConstraintDecl::Revolute { joint_a, joint_b, axis, min_angle, max_angle } => {
            assert_eq!(joint_a, "P");
            assert_eq!(joint_b, "M");
            assert!(matches!(axis, Axis::Z));
            assert_eq!(min_angle.text, "-0.5");
            assert_eq!(max_angle.text, "1.25");
        }
        other => panic!("{:?}", other),
    }
}

#[test]
fn constraint_type_names() {
    assert_eq!(only_constraint("distance(A, B) = 1").constraint_type(), "Distance");
    assert_eq!(only_constraint("fixed(A)").constraint_type(), "Fixed");
    assert_eq!(only_constraint("plane(A) normal=X").constraint_type(), "Plane");
    assert_eq!(
        only_constraint("prismatic_vector(A) axis=X origin=(0,0,0)").constraint_type(),
        "PrismaticVector"
    );
    assert_eq!(
        only_constraint("prismatic_link(A) link=L origin=(0,0,0)").constraint_type(),
        "PrismaticLink"
    );
    assert_eq!(only_constraint("fixed_angle(A, P, C) = 1").constraint_type(), "FixedAngle");
    assert_eq!(
        only_constraint("revolute(P, M) axis=X min=0 max=1").constraint_type(),
        "Revolute"
    );
}

#[test]
fn axis_letters_are_names_elsewhere() {
    let program = parse("sim X { joint X, 0, 0 joint Y, 1, 0 link Z, X, Y fixed(X, Y) }");
    assert_eq!(program.sim_name, "X");
    assert_eq!(program.joints[0].name, "X");
    assert_eq!(program.links[0].name, "Z");
}

#[test]
fn blanks_do_not_matter() {
    let dense = parse("sim s{joint A,1,2 distance(A,A)=0 plane(A)normal=(0,1,0)point=(0,0,0)}");
    let loose = parse(
        "  sim\ts\r\n{\n joint  A ,\n1 , 2\n distance ( A , A ) = 0 plane ( A ) normal = ( 0 , 1 , 0 ) point = ( 0 , 0 , 0 ) }\n",
    );
    assert_eq!(format!("{:?}", dense), format!("{:?}", loose));
}

#[test]
fn error_where_the_header_is_missing() {
    assert_eq!(failure(""), ParseError { offset: 0, expected: Expected::Header });
    assert_eq!(failure("  simulation s { }"), ParseError { offset: 2, expected: Expected::Header });
    assert_eq!(failure("sim"), ParseError { offset: 3, expected: Expected::Name });
    assert_eq!(failure("sim 4 { }"), ParseError { offset: 4, expected: Expected::Name });
    assert_eq!(failure("sim s joint"), ParseError { offset: 6, expected: Expected::LBrace });
}

#[test]
fn error_where_no_declaration_begins() {
    assert_eq!(failure("sim s {"), ParseError { offset: 7, expected: Expected::Statement });
    assert_eq!(failure("sim s { spring(A, B) }"), ParseError { offset: 8, expected: Expected::Statement });
    assert_eq!(failure("sim s { 12 }"), ParseError { offset: 8, expected: Expected::Statement });
    assert_eq!(failure("sim s { joint A, 1, 2; }"), ParseError { offset: 21, expected: Expected::Statement });
}

#[test]
fn error_after_the_closing_brace() {
    assert_eq!(failure("sim s { } sim t { }"), ParseError { offset: 10, expected: Expected::End });
    assert_eq!(failure("sim s { } }"), ParseError { offset: 10, expected: Expected::End });
}

#[test]
fn error_inside_a_joint() {
    assert_eq!(failure("sim s { joint 1, 2, 3 }"), ParseError { offset: 14, expected: Expected::Name });
    assert_eq!(failure("sim s { joint A 1, 2 }"), ParseError { offset: 16, expected: Expected::Comma });
    assert_eq!(failure("sim s { joint A, x, 2 }"), ParseError { offset: 17, expected: Expected::Number });
    assert_eq!(failure("sim s { joint A, 1 }"), ParseError { offset: 19, expected: Expected::Comma });
    assert_eq!(failure("sim s { joint A, 1, 2, }"), ParseError { offset: 23, expected: Expected::Number });
}

#[test]
fn error_inside_a_link() {
    assert_eq!(failure("sim s { link L, A }"), ParseError { offset: 18, expected: Expected::Comma });
    assert_eq!(failure("sim s { link L, A, 3 }"), ParseError { offset: 19, expected: Expected::Name });
}

#[test]
fn error_inside_a_constraint() {
    assert_eq!(failure("sim s { distance A, B }"), ParseError { offset: 17, expected: Expected::LParen });
    assert_eq!(failure("sim s { distance(A) = 1 }"), ParseError { offset: 18, expected: Expected::Comma });
    assert_eq!(failure("sim s { distance(A, B) 1 }"), ParseError { offset: 23, expected: Expected::Equals });
    assert_eq!(failure("sim s { distance(A, B) = B }"), ParseError { offset: 25, expected: Expected::Number });
    assert_eq!(failure("sim s { fixed() }"), ParseError { offset: 14, expected: Expected::Name });
    assert_eq!(failure("sim s { fixed(A B) }"), ParseError { offset: 16, expected: Expected::RParen });
    assert_eq!(failure("sim s { fixed(A,) }"), ParseError { offset: 16, expected: Expected::Name });
    assert_eq!(failure("sim s { plane(A) }"), ParseError { offset: 17, expected: Expected::Normal });
    assert_eq!(failure("sim s { plane(A) normal=W }"), ParseError { offset: 24, expected: Expected::Direction });
    assert_eq!(failure("sim s { plane(A) normal=(1, 2) }"), ParseError { offset: 29, expected: Expected::Comma });
    assert_eq!(failure("sim s { plane(A) normal=X point=Y }"), ParseError { offset: 32, expected: Expected::LParen });
    assert_eq!(failure("sim s { prismatic_vector(A) origin=(0,0,0) }"), ParseError { offset: 28, expected: Expected::Axis });
    assert_eq!(failure("sim s { prismatic_vector(A) axis=X }"), ParseError { offset: 35, expected: Expected::Origin });
    assert_eq!(failure("sim s { prismatic_link(A) axis=X }"), ParseError { offset: 26, expected: Expected::Link });
    assert_eq!(failure("sim s { prismatic_link(A) link=(1,2,3) }"), ParseError { offset: 31, expected: Expected::Name });
    assert_eq!(failure("sim s { fixed_angle(A, P) = 1 }"), ParseError { offset: 24, expected: Expected::Comma });
    assert_eq!(failure("sim s { revolute(P, M) axis=X max=1 }"), ParseError { offset: 30, expected: Expected::Min });
    assert_eq!(failure("sim s { revolute(P, M) axis=X min=0 }"), ParseError { offset: 36, expected: Expected::Max });
}

#[test]
fn error_at_an_invalid_byte() {
    assert_eq!(failure("sim s { joint A, 1, 2 # note\n }"), ParseError { offset: 22, expected: Expected::Statement });
    assert_eq!(failure("sim s { joint A, 1., 2 }"), ParseError { offset: 18, expected: Expected::Comma });
    assert_eq!(failure("sim s { joint A, +1, 2 }"), ParseError { offset: 17, expected: Expected::Number });
}

#[test]
fn the_first_error_is_reported() {
    assert_eq!(failure("sim s { joint , 1 ; link }"), ParseError { offset: 14, expected: Expected::Name });
}

#[test]
fn parts_can_be_read_alone() {
    let text = b"A, B, C) W, 1, 2 L, A, B fixed(A)";
    let toks = tokenize(text);
    let (names, next) = parse_identifier_list(text, &toks, 0).unwrap();
    assert_eq!(names, vec!["A", "B", "C"]);
    assert_eq!(toks[next].kind, TokenKind::RParen);
    let (joint, next) = parse_joint_decl(text, &toks, next + 1).unwrap();
    assert_eq!(joint.name, "W");
    assert!(joint.z.is_none());
    let (link, next) = parse_link_decl(text, &toks, next).unwrap();
    assert_eq!(link.joint_b, "B");
    let (constraint, next) = parse_constraint_decl(text, &toks, next).unwrap();
    assert_eq!(constraint.constraint_type(), "Fixed");
    assert_eq!(toks[next].kind, TokenKind::End);
}

#[test]
fn program_from_tokens() {
    let text = b"sim s { joint A, 0, 0 }";
    let toks = tokenize(text);
    let program = parse_program(text, &toks).unwrap();
    assert_eq!(program.sim_name, "s");
    assert_eq!(program.joints.len(), 1);
}

fn located(text: &str, offset: usize) -> (usize, usize) {
    let at = ParseError { offset, expected: Expected::Name }.locate(text.as_bytes());
    (at.line, at.column)
}

#[test]
fn lines_and_columns_count_from_one() {
    assert_eq!(located("", 0), (1, 1));
    assert_eq!(located("abc", 0), (1, 1));
    assert_eq!(located("abc", 2), (1, 3));
    assert_eq!(located("abc", 3), (1, 4));
    assert_eq!(located("ab\ncd\n\nef", 2), (1, 3));
    assert_eq!(located("ab\ncd\n\nef", 3), (2, 1));
    assert_eq!(located("ab\ncd\n\nef", 5), (2, 3));
    assert_eq!(located("ab\ncd\n\nef", 6), (3, 1));
    assert_eq!(located("ab\ncd\n\nef", 7), (4, 1));
    assert_eq!(located("ab\ncd\n\nef", 9), (4, 3));
    assert_eq!(located("a\r\nb", 3), (2, 1));
}

#[test]
fn an_offset_beyond_the_text_counts_as_its_end() {
    assert_eq!(located("ab\ncd", 100), (2, 3));
    assert_eq!(located("", 1), (1, 1));
    assert_eq!(
        ParseError { offset: usize::MAX, expected: Expected::End }.locate(b"x\n"),
        Location { line: 2, column: 1 }
    );
}

#[test]
fn an_error_is_located_in_its_text() {
    let text = "sim s {\n    joint A, 1, 2\n    link L, A\n}\n";
    let error = failure(text);
    assert_eq!(error, ParseError { offset: 40, expected: Expected::Comma });
    assert_eq!(error.locate(text.as_bytes()), Location { line: 4, column: 1 });
    assert_eq!(error.message(text.as_bytes()), "line 4, column 1: expected ','");
}

#[test]
fn every_expectation_has_its_words() {
    let words = |expected: Expected| {
        ParseError { offset: 0, expected }.message(b"")
    };
    assert_eq!(words(Expected::Header), "line 1, column 1: expected the word 'sim'");
    assert_eq!(words(Expected::Name), "line 1, column 1: expected a name");
    assert_eq!(words(Expected::Number), "line 1, column 1: expected a number");
    assert_eq!(words(Expected::LParen), "line 1, column 1: expected '('");
    assert_eq!(words(Expected::RParen), "line 1, column 1: expected ')'");
    assert_eq!(words(Expected::LBrace), "line 1, column 1: expected '{'");
    assert_eq!(words(Expected::Comma), "line 1, column 1: expected ','");
    assert_eq!(words(Expected::Equals), "line 1, column 1: expected '='");
    assert_eq!(words(Expected::Statement), "line 1, column 1: expected a declaration or '}'");
    assert_eq!(words(Expected::Normal), "line 1, column 1: expected the word 'normal'");
    assert_eq!(words(Expected::Axis), "line 1, column 1: expected the word 'axis'");
    assert_eq!(words(Expected::Origin), "line 1, column 1: expected the word 'origin'");
    assert_eq!(words(Expected::Link), "line 1, column 1: expected the word 'link'");
    assert_eq!(words(Expected::Min), "line 1, column 1: expected the word 'min'");
    assert_eq!(words(Expected::Max), "line 1, column 1: expected the word 'max'");
    assert_eq!(words(Expected::Direction), "line 1, column 1: expected 'X', 'Y', 'Z' or a vector");
    assert_eq!(words(Expected::End), "line 1, column 1: expected the end of the text");
    assert_eq!(Expected::Name.describe(), "a name");
}

#[test]
fn numbers_in_decimal() {
    let written = |n: usize| {
        let mut text = String::from("n=");
        push_decimal(&mut text, n);
        text
    };
    assert_eq!(written(0), "n=0");
    assert_eq!(written(7), "n=7");
    assert_eq!(written(10), "n=10");
    assert_eq!(written(109), "n=109");
    assert_eq!(written(12345), "n=12345");
    assert_eq!(written(usize::MAX), format!("n={}", usize::MAX));
}

#[test]
fn a_text_spelled_with_a_blank_before_each_token_reads_back() {
    let spelled = " sim four { joint A , 0 , 0 joint B , 1 , -2.5 , 3 link AB , A , B \
        distance ( A , B ) = 2 fixed ( A , B ) plane ( A ) normal = Y \
        plane ( B ) normal = ( 0 , 1 , 0 ) point = ( 1 , 2 , 3 ) \
        prismatic_vector ( A ) axis = X origin = ( 0 , 0 , 0 ) \
        prismatic_link ( B ) link = AB origin = ( 0 , 0 , 0 ) \
        fixed_angle ( A , B , A ) = 90 deg fixed_angle ( A , B , A ) = 1 rad \
        revolute ( A , B ) axis = Z min = -1 max = 1 }";
    let dense = "sim four{joint A,0,0 joint B,1,-2.5,3 link AB,A,B \
        distance(A,B)=2 fixed(A,B)plane(A)normal=Y \
        plane(B)normal=(0,1,0)point=(1,2,3)\
        prismatic_vector(A)axis=X origin=(0,0,0)\
        prismatic_link(B)link=AB origin=(0,0,0)\
        fixed_angle(A,B,A)=90degrees fixed_angle(A,B,A)=1\
        revolute(A,B)axis=Z min=-1 max=1}";
    let program = parse(spelled);
    assert_eq!(program.joints.len(), 2);
    assert_eq!(program.links.len(), 1);
    assert_eq!(program.constraints.len(), 9);
    assert_eq!(format!("{:?}", program), format!("{:?}", parse(dense)));
}

#[test]
fn declarations_in_any_order_give_the_same_program() {
    let sorted = parse("sim s { joint A, 0, 0 joint B, 1, 0 link L, A, B fixed(A) fixed(B) }");
    let mixed = parse("sim s { fixed(A) joint A, 0, 0 link L, A, B fixed(B) joint B, 1, 0 }");
    assert_eq!(format!("{:?}", sorted), format!("{:?}", mixed));
}
