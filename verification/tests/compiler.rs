use ugoku::dsl::ast::Program;
use ugoku::dsl::compiler::{setup_sim_from_dsl, DslCompiler};
use ugoku::dsl::parser::{Expected, ParseError, UgokuParser};
use ugoku::error::{CompileError, Role};
use ugoku::simcore::bindings::{
    apply_distance, apply_fixed, apply_fixed_angle, apply_plane, apply_prismatic_link,
    apply_prismatic_vector, apply_revolute, NameTable,
};
use ugoku::simcore::numeric::{Position, Scalar, Vec2, Vec3, ONE_BITS, ZERO_BITS};
use ugoku::simcore::types::{Constraint, Handle, Joint, JointType, Link, Simulation};

fn scalar(value: f32) -> Scalar {
    Scalar::from_bits(value.to_bits())
}

fn vec3(x: f32, y: f32, z: f32) -> Vec3 {
    Vec3::new(scalar(x), scalar(y), scalar(z))
}

fn number(text: &str) -> Scalar {
    scalar(text.parse::<f32>().unwrap())
}

fn to_radians(degrees: Scalar) -> Scalar {
    scalar(f32::from_bits(degrees.bits).to_radians())
}

fn normalize(v: Vec3) -> Vec3 {
    let n = glam::Vec3::new(
        f32::from_bits(v.x.bits),
        f32::from_bits(v.y.bits),
        f32::from_bits(v.z.bits),
    )
    .normalize();
    vec3(n.x, n.y, n.z)
}

fn parse(text: &str) -> Program {
    UgokuParser::parse_dsl(text).unwrap()
}

fn compile(text: &str) -> Result<Simulation, CompileError> {
    setup_sim_from_dsl(text, &number, &to_radians, &normalize)
}

fn compiled(text: &str) -> Simulation {
    match compile(text) {
        Ok(sim) => sim,
        Err(e) => panic!("{:?}", e),
    }
}

fn missing(text: &str) -> (Role, String) {
    match compile(text) {
        Ok(_) => panic!("{:?} was compiled", text),
        Err(CompileError::NotFound { role, name }) => (role, name),
        Err(other) => panic!("{:?}", other),
    }
}

fn joint_at(sim: &Simulation, x: f32, y: f32, z: f32) -> Handle {
    let want = Position::Vec3(vec3(x, y, z));
    let found: Vec<Handle> = sim
        .joint_ids()
        .into_iter()
        .filter(|id| sim.joint(*id).unwrap().position == want)
        .collect();
    assert_eq!(found.len(), 1);
    found[0]
}

const FOUR_BAR: &str = "sim fourbar {
    joint A, 0, 0, 0
    joint B, 2, 0, 0
    joint C, 2, 0, 2
    joint D, 0, 0, 2
    link AB, A, B
    link BC, B, C
    link CD, C, D
    link DA, D, A
    distance(A, B) = 2
    distance(B, C) = 2
    distance(C, D) = 2
    distance(D, A) = 2
    fixed(A, B)
    plane(A, B, C, D) normal=Y point=(0, 0, 0)
}";

#[test]
fn constants_are_the_bit_patterns_of_zero_and_one() {
    assert_eq!(f32::from_bits(ZERO_BITS), 0.0);
    assert_eq!(ZERO_BITS, 0.0f32.to_bits());
    assert_eq!(f32::from_bits(ONE_BITS), 1.0);
    assert_eq!(Scalar::zero(), scalar(0.0));
    assert_eq!(Scalar::one(), scalar(1.0));
    assert_eq!(Scalar::from_bits(7).to_bits(), 7);
    assert_eq!(Vec3::zero(), vec3(0.0, 0.0, 0.0));
    assert_eq!(Vec3::unit_x(), vec3(1.0, 0.0, 0.0));
    assert_eq!(Vec3::unit_y(), vec3(0.0, 1.0, 0.0));
    assert_eq!(Vec3::unit_z(), vec3(0.0, 0.0, 1.0));
}

#[test]
fn planar_position_lies_at_height_zero() {
    let flat = Position::Vec2(Vec2::new(scalar(1.5), scalar(-2.0)));
    assert_eq!(flat.as_vec3(), vec3(1.5, -2.0, 0.0));
    assert_eq!(flat.as_vec2(), Vec2::new(scalar(1.5), scalar(-2.0)));
    let deep = Position::Vec3(vec3(1.0, 2.0, 3.0));
    assert_eq!(deep.as_vec3(), vec3(1.0, 2.0, 3.0));
    assert_eq!(deep.as_vec2(), Vec2::new(scalar(1.0), scalar(2.0)));
    assert_eq!(Vec2::new(scalar(1.0), scalar(2.0)).extend(scalar(3.0)), vec3(1.0, 2.0, 3.0));
    assert_eq!(vec3(1.0, 2.0, 3.0).truncate(), Vec2::new(scalar(1.0), scalar(2.0)));
}

#[test]
fn as_many_joints_and_links_as_declared() {
    let sim = compiled(FOUR_BAR);
    assert_eq!(sim.joint_count(), 4);
    assert_eq!(sim.link_count(), 4);
    assert_eq!(sim.joint_ids().len(), 4);
    assert_eq!(sim.link_ids().len(), 4);
    assert_eq!(sim.joints.len(), 4);
    assert_eq!(sim.links.len(), 4);
    for id in sim.joint_ids() {
        assert!(sim.joint(id).is_some());
    }
    for id in sim.link_ids() {
        assert!(sim.link(id).is_some());
    }
}

#[test]
fn joints_are_where_they_were_declared() {
    let sim = compiled(FOUR_BAR);
    joint_at(&sim, 0.0, 0.0, 0.0);
    joint_at(&sim, 2.0, 0.0, 0.0);
    joint_at(&sim, 2.0, 0.0, 2.0);
    joint_at(&sim, 0.0, 0.0, 2.0);
    for id in sim.joint_ids() {
        assert!(matches!(sim.joint(id).unwrap().joint_type, JointType::Revolute));
    }
}

#[test]
fn two_coordinates_give_a_planar_joint() {
    let sim = compiled("sim s { joint A, 1.5, -2 joint B, 1.5, -2, 0 }");
    let positions: Vec<Position> =
        sim.joint_ids().into_iter().map(|id| sim.joint(id).unwrap().position).collect();
    let flat = Position::Vec2(Vec2::new(scalar(1.5), scalar(-2.0)));
    let deep = Position::Vec3(vec3(1.5, -2.0, 0.0));
    assert_eq!(positions.iter().filter(|p| **p == flat).count(), 1);
    assert_eq!(positions.iter().filter(|p| **p == deep).count(), 1);
}

#[test]
fn links_join_the_joints_they_name() {
    let sim = compiled(FOUR_BAR);
    let a = joint_at(&sim, 0.0, 0.0, 0.0);
    let b = joint_at(&sim, 2.0, 0.0, 0.0);
    let c = joint_at(&sim, 2.0, 0.0, 2.0);
    let d = joint_at(&sim, 0.0, 0.0, 2.0);
    let mut ends: Vec<Vec<Handle>> =
        sim.link_ids().into_iter().map(|id| sim.link(id).unwrap().joints.clone()).collect();
    for id in sim.link_ids() {
        assert!(sim.link(id).unwrap().rigid);
    }
    let mut want = vec![vec![a, b], vec![b, c], vec![c, d], vec![d, a]];
    let key = |pair: &Vec<Handle>| (pair[0].index, pair[1].index);
    ends.sort_by_key(key);
    want.sort_by_key(key);
    assert_eq!(ends, want);
}

#[test]
fn joints_are_connected_to_the_links_that_name_them() {
    let sim = compiled(FOUR_BAR);
    for joint_id in sim.joint_ids() {
        let connected = &sim.joint(joint_id).unwrap().connected_links;
        let naming: Vec<Handle> = sim
            .link_ids()
            .into_iter()
            .filter(|link_id| sim.link(*link_id).unwrap().joints.contains(&joint_id))
            .collect();
        assert_eq!(connected.len(), 2);
        assert_eq!(naming.len(), 2);
        for link_id in &naming {
            assert!(connected.contains(link_id));
        }
    }
    let a = joint_at(&sim, 0.0, 0.0, 0.0);
    let first = sim.joint(a).unwrap().connected_links.clone();
    assert_eq!(sim.link(first[0]).unwrap().joints[0], a);
    assert_eq!(sim.link(first[1]).unwrap().joints[1], a);
}

#[test]
fn a_link_from_a_joint_to_itself_is_connected_twice() {
    let sim = compiled("sim s { joint A, 0, 0 link L, A, A }");
    let a = sim.joint_ids()[0];
    let l = sim.link_ids()[0];
    assert_eq!(sim.joint(a).unwrap().connected_links, vec![l, l]);
    assert_eq!(sim.link(l).unwrap().joints, vec![a, a]);
}

#[test]
fn an_unused_joint_has_no_links() {
    let sim = compiled("sim s { joint A, 0, 0 joint B, 1, 0 joint C, 2, 0 link L, A, B }");
    let c = joint_at_flat(&sim, 2.0, 0.0);
    assert!(sim.joint(c).unwrap().connected_links.is_empty());
}

fn joint_at_flat(sim: &Simulation, x: f32, y: f32) -> Handle {
    let want = Position::Vec2(Vec2::new(scalar(x), scalar(y)));
    let found: Vec<Handle> = sim
        .joint_ids()
        .into_iter()
        .filter(|id| sim.joint(*id).unwrap().position == want)
        .collect();
    assert_eq!(found.len(), 1);
    found[0]
}

#[test]
fn constraints_come_in_the_order_of_their_declarations() {
    let sim = compiled(FOUR_BAR);
    let a = joint_at(&sim, 0.0, 0.0, 0.0);
    let b = joint_at(&sim, 2.0, 0.0, 0.0);
    let c = joint_at(&sim, 2.0, 0.0, 2.0);
    let d = joint_at(&sim, 0.0, 0.0, 2.0);
    assert_eq!(sim.constraints.len(), 10);
    let pairs = [(a, b), (b, c), (c, d), (d, a)];
    for (i, (first, second)) in pairs.iter().enumerate() {
        match sim.constraints[i] {
            Constraint::Distance(found) => {
                assert_eq!(found.joint_a, *first);
                assert_eq!(found.joint_b, *second);
                assert_eq!(found.target_distance, scalar(2.0));
            }
            other => panic!("{:?}", other),
        }
    }
    for (i, joint) in [a, b].iter().enumerate() {
        match sim.constraints[4 + i] {
            Constraint::FixedPosition(found) => {
                assert_eq!(found.joint_id, *joint);
                assert_eq!(found.target_position, sim.joint(*joint).unwrap().position);
            }
            other => panic!("{:?}", other),
        }
    }
    for (i, joint) in [a, b, c, d].iter().enumerate() {
        match sim.constraints[6 + i] {
            Constraint::Plane(found) => {
                assert_eq!(found.joint_id, *joint);
                assert_eq!(found.normal, vec3(0.0, 1.0, 0.0));
                assert_eq!(found.plane_point, vec3(0.0, 0.0, 0.0));
            }
            other => panic!("{:?}", other),
        }
    }
}

#[test]
fn a_plane_without_point_passes_through_the_origin() {
    let sim = compiled("sim s { joint A, 1, 2, 3 plane(A) normal=(0, 0, 2) }");
    match sim.constraints[0] {
        Constraint::Plane(found) => {
            assert_eq!(found.normal, vec3(0.0, 0.0, 2.0));
            assert_eq!(found.plane_point, Vec3::zero());
        }
        other => panic!("{:?}", other),
    }
    let sim = compiled("sim s { joint A, 1, 2, 3 plane(A) normal=Z point=(1, 2, 3) }");
    match sim.constraints[0] {
        Constraint::Plane(found) => {
            assert_eq!(found.normal, Vec3::unit_z());
            assert_eq!(found.plane_point, vec3(1.0, 2.0, 3.0));
        }
        other => panic!("{:?}", other),
    }
}

#[test]
fn the_axis_of_a_line_is_normalized() {
    let sim = compiled(
        "sim s { joint A, 0, 0 joint B, 1, 1 prismatic_vector(A, B) axis=(0, 3, 4) origin=(1, 0, 0) }",
    );
    assert_eq!(sim.constraints.len(), 2);
    let ids = [joint_at_flat(&sim, 0.0, 0.0), joint_at_flat(&sim, 1.0, 1.0)];
    for (i, id) in ids.iter().enumerate() {
        match sim.constraints[i] {
            Constraint::PrismaticVector(found) => {
                assert_eq!(found.joint_id, *id);
                assert_eq!(found.axis, normalize(vec3(0.0, 3.0, 4.0)));
                assert!((f32::from_bits(found.axis.y.bits) - 0.6).abs() < 1e-6);
                assert!((f32::from_bits(found.axis.z.bits) - 0.8).abs() < 1e-6);
                assert_eq!(found.origin, vec3(1.0, 0.0, 0.0));
            }
            other => panic!("{:?}", other),
        }
    }
}

#[test]
fn a_line_along_a_link_keeps_the_link() {
    let sim = compiled(
        "sim s { joint A, 0, 0 joint B, 1, 0 joint E, 5, 5 link AB, A, B prismatic_link(E) link=AB origin=(0, 0, 0) }",
    );
    let e = joint_at_flat(&sim, 5.0, 5.0);
    match sim.constraints[0] {
        Constraint::PrismaticLink(found) => {
            assert_eq!(found.joint_id, e);
            assert_eq!(found.link_id, sim.link_ids()[0]);
            assert_eq!(found.origin, Vec3::zero());
        }
        other => panic!("{:?}", other),
    }
}

#[test]
fn an_angle_in_degrees_is_stored_in_radians() {
    let text = |angle: &str| {
        format!(
            "sim s {{ joint A, 1, 0 joint P, 0, 0 joint C, 0, 1 fixed_angle(A, P, C) = {} }}",
            angle
        )
    };
    let stored = |angle: &str| {
        let sim = compiled(&text(angle));
        match sim.constraints[0] {
            Constraint::FixedAngle(found) => {
                assert_eq!(found.joint_a_id, joint_at_flat(&sim, 1.0, 0.0));
                assert_eq!(found.pivot_joint_id, joint_at_flat(&sim, 0.0, 0.0));
                assert_eq!(found.joint_b_id, joint_at_flat(&sim, 0.0, 1.0));
                f32::from_bits(found.target_angle.bits)
            }
            other => panic!("{:?}", other),
        }
    };
    assert_eq!(stored("180deg"), std::f32::consts::PI);
    assert_eq!(stored("90 degrees"), 90.0f32.to_radians());
    assert_eq!(stored("1.5rad"), 1.5);
    assert_eq!(stored("1.5 radians"), 1.5);
    assert_eq!(stored("1.5"), 1.5);
}

#[test]
fn a_revolute_constraint_keeps_its_axis_as_written() {
    let sim = compiled(
        "sim s { joint P, 0, 0, 0 joint M, 1, 0, 0 revolute(P, M) axis=(2, 0, 0) min=-0.5 max=0.75 }",
    );
    match sim.constraints[0] {
        Constraint::Revolute(found) => {
            assert_eq!(found.pivot_joint_id, joint_at(&sim, 0.0, 0.0, 0.0));
            assert_eq!(found.moving_joint_id, joint_at(&sim, 1.0, 0.0, 0.0));
            assert_eq!(found.rest_direction, vec3(2.0, 0.0, 0.0));
            assert_eq!(found.min_angle, scalar(-0.5));
            assert_eq!(found.max_angle, scalar(0.75));
        }
        other => panic!("{:?}", other),
    }
}

#[test]
fn a_fixed_constraint_may_stand_before_other_declarations() {
    let sim = compiled("sim s { fixed(A) joint A, 3, 4, 5 }");
    match sim.constraints[0] {
        Constraint::FixedPosition(found) => {
            assert_eq!(found.target_position, Position::Vec3(vec3(3.0, 4.0, 5.0)));
        }
        other => panic!("{:?}", other),
    }
}

#[test]
fn the_last_declaration_of_a_name_counts() {
    let sim = compiled("sim s { joint A, 0, 0 joint A, 9, 9 joint B, 1, 0 link L, A, B fixed(A) }");
    assert_eq!(sim.joint_count(), 3);
    let early = joint_at_flat(&sim, 0.0, 0.0);
    let late = joint_at_flat(&sim, 9.0, 9.0);
    let b = joint_at_flat(&sim, 1.0, 0.0);
    let l = sim.link_ids()[0];
    assert_eq!(sim.link(l).unwrap().joints, vec![late, b]);
    assert!(sim.joint(early).unwrap().connected_links.is_empty());
    assert_eq!(sim.joint(late).unwrap().connected_links, vec![l]);
    match sim.constraints[0] {
        Constraint::FixedPosition(found) => assert_eq!(found.joint_id, late),
        other => panic!("{:?}", other),
    }
}

#[test]
fn an_undeclared_joint_in_a_link_is_named() {
    assert_eq!(missing("sim s { joint A, 0, 0 link L, A, B }"), (Role::Joint, "B".to_string()));
    assert_eq!(missing("sim s { joint A, 0, 0 link L, C, A }"), (Role::Joint, "C".to_string()));
    assert_eq!(missing("sim s { link L, C, D }"), (Role::Joint, "C".to_string()));
}

#[test]
fn an_undeclared_name_in_a_constraint_is_named() {
    let with = |constraint: &str| {
        missing(&format!(
            "sim s {{ joint A, 0, 0 joint B, 1, 0 link AB, A, B {} }}",
            constraint
        ))
    };
    assert_eq!(with("distance(A, Q) = 1"), (Role::Joint, "Q".to_string()));
    assert_eq!(with("distance(Q, R) = 1"), (Role::Joint, "Q".to_string()));
    assert_eq!(with("fixed(A, Q, R)"), (Role::Joint, "Q".to_string()));
    assert_eq!(with("plane(A, B, Q) normal=X"), (Role::Joint, "Q".to_string()));
    assert_eq!(
        with("prismatic_vector(Q) axis=X origin=(0,0,0)"),
        (Role::Joint, "Q".to_string())
    );
    assert_eq!(
        with("prismatic_link(Q) link=AB origin=(0,0,0)"),
        (Role::Joint, "Q".to_string())
    );
    assert_eq!(
        with("prismatic_link(Q) link=QR origin=(0,0,0)"),
        (Role::Link, "QR".to_string())
    );
    assert_eq!(with("prismatic_link(A) link=A origin=(0,0,0)"), (Role::Link, "A".to_string()));
    assert_eq!(with("fixed_angle(Q, R, S) = 1"), (Role::Joint, "Q".to_string()));
    assert_eq!(with("fixed_angle(A, R, S) = 1"), (Role::Joint, "S".to_string()));
    assert_eq!(with("fixed_angle(A, R, B) = 1"), (Role::PivotJoint, "R".to_string()));
    assert_eq!(with("revolute(Q, R) axis=X min=0 max=1"), (Role::PivotJoint, "Q".to_string()));
    assert_eq!(with("revolute(A, R) axis=X min=0 max=1"), (Role::MovingJoint, "R".to_string()));
}

#[test]
fn links_are_checked_before_constraints() {
    assert_eq!(
        missing("sim s { distance(Q, R) = 1 joint A, 0, 0 link L, A, M }"),
        (Role::Joint, "M".to_string())
    );
    assert_eq!(
        missing("sim s { joint A, 0, 0 fixed(A, R) distance(A, Q) = 1 }"),
        (Role::Joint, "R".to_string())
    );
}

#[test]
fn a_link_is_no_joint() {
    assert_eq!(
        missing("sim s { joint A, 0, 0 link L, A, A fixed(L) }"),
        (Role::Joint, "L".to_string())
    );
}

#[test]
fn messages_name_the_identifier() {
    let message = |role: Role| {
        CompileError::NotFound { role, name: "Q7".to_string() }.message("sim s { }")
    };
    assert_eq!(message(Role::Joint), "Joint 'Q7' not found");
    assert_eq!(message(Role::PivotJoint), "Pivot joint 'Q7' not found");
    assert_eq!(message(Role::MovingJoint), "Moving joint 'Q7' not found");
    assert_eq!(message(Role::Link), "Link 'Q7' not found");
    assert_eq!(Role::Link.label(), "Link");
    let text = "sim s { joint A, 0, 0 fixed(A, B) }";
    assert_eq!(compile(text).unwrap_err().message(text), "Joint 'B' not found");
}

#[test]
fn messages_locate_a_syntax_error() {
    let text = "sim s {\n  joint A, 0, 0\n  joint B 1, 0\n}\n";
    let error = compile(text).unwrap_err();
    assert_eq!(error.message(text), "line 3, column 11: expected ','");
    let syntax = CompileError::Syntax(ParseError { offset: 3, expected: Expected::Name });
    assert_eq!(syntax.message("sim"), "line 1, column 4: expected a name");
}

#[test]
fn a_text_that_is_no_description_gives_the_error_of_the_parser() {
    match compile("sim s { joint A }") {
        Err(CompileError::Syntax(e)) => {
            assert_eq!(e, ParseError { offset: 16, expected: Expected::Comma })
        }
        other => panic!("{:?}", other.map(|_| ())),
    }
}

#[test]
fn compiling_a_tree_is_compiling_its_text() {
    let from_tree =
        DslCompiler::compile_to_simulation(parse(FOUR_BAR), &number, &to_radians, &normalize)
            .unwrap();
    let from_text = compiled(FOUR_BAR);
    assert_eq!(format!("{:?}", from_tree), format!("{:?}", from_text));
}

#[test]
fn the_empty_mechanism() {
    let sim = Simulation::new();
    assert_eq!(sim.joint_count(), 0);
    assert_eq!(sim.link_count(), 0);
    assert!(sim.joint_ids().is_empty());
    assert!(sim.link_ids().is_empty());
    assert!(sim.constraints.is_empty());
    let sim = Simulation::default();
    assert_eq!(sim.joint_count(), 0);
    let sim = compiled("sim nothing { }");
    assert_eq!(sim.joint_count(), 0);
    assert!(sim.constraints.is_empty());
}

fn two_joints() -> (Simulation, NameTable, Handle, Handle) {
    let mut sim = Simulation::new();
    let mut table = NameTable::new();
    let mut add = |name: &str, x: f32| {
        let (index, generation) = sim
            .joints
            .insert(Joint {
                position: Position::Vec3(vec3(x, 0.0, 0.0)),
                joint_type: JointType::Fixed,
                connected_links: Vec::new(),
            })
            .into_raw_parts();
        let id = Handle { index, generation };
        table.insert(name.to_string(), id);
        id
    };
    let a = add("A", 1.0);
    let b = add("B", 2.0);
    (sim, table, a, b)
}

#[test]
fn name_table_finds_the_last_declaration() {
    let mut table = NameTable::new();
    assert_eq!(table.get("A"), None);
    let first = Handle { index: 0, generation: 0 };
    let second = Handle { index: 1, generation: 0 };
    table.insert("A".to_string(), first);
    table.insert("B".to_string(), first);
    assert_eq!(table.get("A"), Some(first));
    table.insert("A".to_string(), second);
    assert_eq!(table.get("A"), Some(second));
    assert_eq!(table.get("B"), Some(first));
    assert_eq!(table.get("a"), None);
    assert_eq!(table.get(""), None);
    assert_eq!(table.resolve("A", Role::Joint).unwrap(), second);
    match table.resolve("C", Role::Link) {
        Err(CompileError::NotFound { role, name }) => {
            assert_eq!(role, Role::Link);
            assert_eq!(name, "C");
        }
        other => panic!("{:?}", other),
    }
}

#[test]
fn apply_distance_adds_one_constraint() {
    let (mut sim, table, a, b) = two_joints();
    apply_distance(&mut sim, &table, "B", "A", scalar(3.0)).unwrap();
    assert_eq!(sim.constraints.len(), 1);
    match sim.constraints[0] {
        Constraint::Distance(found) => {
            assert_eq!(found.joint_a, b);
            assert_eq!(found.joint_b, a);
            assert_eq!(found.target_distance, scalar(3.0));
        }
        other => panic!("{:?}", other),
    }
    assert!(apply_distance(&mut sim, &table, "A", "C", scalar(3.0)).is_err());
    assert_eq!(sim.constraints.len(), 1);
}

#[test]
fn apply_fixed_keeps_what_it_added_before_the_missing_name() {
    let (mut sim, table, a, _) = two_joints();
    let names = vec!["A".to_string(), "C".to_string(), "B".to_string()];
    match apply_fixed(&mut sim, &table, &names) {
        Err(CompileError::NotFound { role, name }) => {
            assert_eq!(role, Role::Joint);
            assert_eq!(name, "C");
        }
        other => panic!("{:?}", other),
    }
    assert_eq!(sim.constraints.len(), 1);
    match sim.constraints[0] {
        Constraint::FixedPosition(found) => {
            assert_eq!(found.joint_id, a);
            assert_eq!(found.target_position, Position::Vec3(vec3(1.0, 0.0, 0.0)));
        }
        other => panic!("{:?}", other),
    }
}

#[test]
fn apply_plane_and_lines() {
    let (mut sim, table, a, b) = two_joints();
    let names = vec!["A".to_string(), "B".to_string()];
    apply_plane(&mut sim, &table, &names, vec3(0.0, 1.0, 0.0), None).unwrap();
    apply_plane(&mut sim, &table, &names[..1], vec3(0.0, 1.0, 0.0), Some(vec3(1.0, 1.0, 1.0)))
        .unwrap();
    apply_prismatic_vector(
        &mut sim,
        &table,
        &names[1..],
        vec3(0.0, 0.0, 5.0),
        vec3(1.0, 2.0, 3.0),
        &normalize,
    )
    .unwrap();
    let mut links = NameTable::new();
    let (index, generation) =
        sim.links.insert(Link { joints: vec![a, b], rigid: true }).into_raw_parts();
    let link = Handle { index, generation };
    links.insert("AB".to_string(), link);
    apply_prismatic_link(&mut sim, &table, &links, &names, "AB", vec3(0.0, 0.0, 0.0)).unwrap();
    assert!(apply_prismatic_link(&mut sim, &table, &links, &names, "BA", Vec3::zero()).is_err());
    assert_eq!(sim.constraints.len(), 6);
    match (sim.constraints[1], sim.constraints[2], sim.constraints[3], sim.constraints[5]) {
        (
            Constraint::Plane(second),
            Constraint::Plane(third),
            Constraint::PrismaticVector(line),
            Constraint::PrismaticLink(along),
        ) => {
            assert_eq!(second.joint_id, b);
            assert_eq!(second.plane_point, Vec3::zero());
            assert_eq!(third.joint_id, a);
            assert_eq!(third.plane_point, vec3(1.0, 1.0, 1.0));
            assert_eq!(line.joint_id, b);
            assert_eq!(line.axis, vec3(0.0, 0.0, 1.0));
            assert_eq!(line.origin, vec3(1.0, 2.0, 3.0));
            assert_eq!(along.joint_id, b);
            assert_eq!(along.link_id, link);
        }
        other => panic!("{:?}", other),
    }
}

#[test]
fn apply_fixed_angle_and_revolute() {
    let (mut sim, table, a, b) = two_joints();
    apply_fixed_angle(&mut sim, &table, "A", "B", "A", scalar(0.5)).unwrap();
    apply_revolute(&mut sim, &table, "B", "A", vec3(1.0, 0.0, 0.0), scalar(-1.0), scalar(1.0))
        .unwrap();
    match (sim.constraints[0], sim.constraints[1]) {
        (Constraint::FixedAngle(angle), Constraint::Revolute(revolute)) => {
            assert_eq!(angle.joint_a_id, a);
            assert_eq!(angle.pivot_joint_id, b);
            assert_eq!(angle.joint_b_id, a);
            assert_eq!(angle.target_angle, scalar(0.5));
            assert_eq!(revolute.pivot_joint_id, b);
            assert_eq!(revolute.moving_joint_id, a);
            assert_eq!(revolute.min_angle, scalar(-1.0));
            assert_eq!(revolute.max_angle, scalar(1.0));
        }
        other => panic!("{:?}", other),
    }
    match apply_fixed_angle(&mut sim, &table, "A", "P", "B", scalar(0.5)) {
        Err(CompileError::NotFound { role, name }) => {
            assert_eq!(role, Role::PivotJoint);
            assert_eq!(name, "P");
        }
        other => panic!("{:?}", other),
    }
    match apply_revolute(&mut sim, &table, "A", "M", Vec3::unit_x(), scalar(0.0), scalar(0.0)) {
        Err(CompileError::NotFound { role, name }) => {
            assert_eq!(role, Role::MovingJoint);
            assert_eq!(name, "M");
        }
        other => panic!("{:?}", other),
    }
    assert_eq!(sim.constraints.len(), 2);
}
