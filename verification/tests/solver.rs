use std::cell::Cell;

use generational_arena::Index;
use ugoku::dsl::compiler::setup_sim_from_dsl;
use ugoku::simcore::numeric::{Position, Scalar, Vec2, Vec3};
use ugoku::simcore::solvers::{Correction, Problem};
use ugoku::simcore::types::{
    Constraint, DistanceConstraint, FixedAngleConstraint, FixedPositionConstraint, Handle,
    PlaneConstraint, PrismaticConstraintLink, PrismaticConstraintVector, RevoluteConstraint,
    Simulation,
};

fn scalar(value: f32) -> Scalar {
    Scalar::from_bits(value.to_bits())
}

fn value(s: Scalar) -> f32 {
    f32::from_bits(s.bits)
}

fn vec3(x: f32, y: f32, z: f32) -> Vec3 {
    Vec3::new(scalar(x), scalar(y), scalar(z))
}

fn glam_of(v: Vec3) -> glam::Vec3 {
    glam::Vec3::new(value(v.x), value(v.y), value(v.z))
}

fn point(p: Position) -> glam::Vec3 {
    glam_of(p.as_vec3())
}

fn position(v: glam::Vec3) -> Position {
    Position::Vec3(vec3(v.x, v.y, v.z))
}

fn number(text: &str) -> Scalar {
    scalar(text.parse::<f32>().unwrap())
}

fn to_radians(degrees: Scalar) -> Scalar {
    scalar(value(degrees).to_radians())
}

fn normalize(v: Vec3) -> Vec3 {
    let n = glam_of(v).normalize();
    vec3(n.x, n.y, n.z)
}

fn keep() -> Correction {
    Correction { first: None, second: None }
}

fn toward_distance(a: glam::Vec3, b: glam::Vec3, target: f32) -> Correction {
    let delta = b - a;
    let length = delta.length();
    let error = length - target;
    if error.abs() > 1e-6 && length > 0.0 {
        let shift = delta.normalize() * (error * 0.5);
        Correction { first: Some(position(a + shift)), second: Some(position(b - shift)) }
    } else {
        keep()
    }
}

fn onto_line(p: glam::Vec3, axis: glam::Vec3, origin: glam::Vec3) -> glam::Vec3 {
    let direction = axis.normalize();
    origin + direction * (p - origin).dot(direction)
}

fn chord(a: glam::Vec3, b: glam::Vec3, pivot: glam::Vec3, angle: f32) -> f32 {
    let r_a = (a - pivot).length();
    let r_b = (b - pivot).length();
    (r_a.powi(2) + r_b.powi(2) - 2.0 * r_a * r_b * angle.cos()).sqrt()
}

fn signed_angle(pivot: glam::Vec3, moving: glam::Vec3, rest: glam::Vec3) -> Option<(f32, glam::Vec3, glam::Vec3)> {
    let current = (moving - pivot).normalize();
    let rest = rest.normalize();
    let normal = rest.cross(current).normalize_or_zero();
    if normal.length_squared() == 0.0 {
        return None;
    }
    let angle = rest.dot(current).clamp(-1.0, 1.0).acos();
    let signed = if rest.cross(current).dot(normal) < 0.0 { -angle } else { angle };
    Some((signed, rest, normal))
}

fn rotate(v: glam::Vec3, normal: glam::Vec3, angle: f32) -> glam::Vec3 {
    let (sin, cos) = (angle.sin(), angle.cos());
    v * cos + normal.cross(v) * sin + normal * normal.dot(v) * (1.0 - cos)
}

fn kernel(problem: Problem) -> Correction {
    match problem {
        Problem::FixedPosition { target_position, .. } => {
            Correction { first: Some(target_position), second: None }
        }
        Problem::Distance { a, b, target_distance } => {
            toward_distance(point(a), point(b), value(target_distance))
        }
        Problem::Plane { position: p, normal, plane_point } => {
            let (p, normal) = (point(p), glam_of(normal));
            let off = (p - glam_of(plane_point)).dot(normal);
            Correction { first: Some(position(p - normal * off)), second: None }
        }
        Problem::Prismatic { position: p, axis, origin } => Correction {
            first: Some(position(onto_line(point(p), glam_of(axis), glam_of(origin)))),
            second: None,
        },
        Problem::PrismaticLink { position: p, start, end, origin } => Correction {
            first: Some(position(onto_line(point(p), point(end) - point(start), glam_of(origin)))),
            second: None,
        },
        Problem::FixedAngle { a, b, pivot, target_angle } => {
            let (a, b) = (point(a), point(b));
            toward_distance(a, b, chord(a, b, point(pivot), value(target_angle)))
        }
        Problem::Revolute { pivot, moving, rest_direction, min_angle, max_angle } => {
            let (pivot, moving) = (point(pivot), point(moving));
            let (min, max) = (value(min_angle), value(max_angle));
            match signed_angle(pivot, moving, glam_of(rest_direction)) {
                Some((signed, rest, normal)) if signed < min || signed > max => {
                    let turned = rotate(rest, normal, signed.clamp(min, max));
                    let radius = (moving - pivot).length();
                    Correction { first: Some(position(pivot + turned * radius)), second: None }
                }
                _ => keep(),
            }
        }
    }
}

fn check(problem: Problem) -> bool {
    match problem {
        Problem::FixedPosition { position: p, target_position } => {
            point(p).abs_diff_eq(point(target_position), 1e-6)
        }
        Problem::Distance { a, b, target_distance } => {
            (point(a).distance(point(b)) - value(target_distance)).abs() < 1e-6
        }
        Problem::Plane { position: p, normal, plane_point } => {
            (point(p) - glam_of(plane_point)).dot(glam_of(normal)).abs() < 1e-6
        }
        Problem::Prismatic { position: p, axis, origin } => {
            let p = point(p);
            (p - onto_line(p, glam_of(axis), glam_of(origin))).length() < 1e-6
        }
        Problem::PrismaticLink { position: p, start, end, origin } => {
            let p = point(p);
            (p - onto_line(p, point(end) - point(start), glam_of(origin))).length() < 1e-6
        }
        Problem::FixedAngle { a, b, pivot, target_angle } => {
            let (a, b) = (point(a), point(b));
            ((b - a).length() - chord(a, b, point(pivot), value(target_angle))).abs() < 1e-4
        }
        Problem::Revolute { pivot, moving, rest_direction, min_angle, max_angle } => {
            match signed_angle(point(pivot), point(moving), glam_of(rest_direction)) {
                Some((signed, _, _)) => {
                    signed >= value(min_angle) - 1e-5 && signed <= value(max_angle) + 1e-5
                }
                None => false,
            }
        }
    }
}

fn compiled(text: &str) -> Simulation {
    match setup_sim_from_dsl(text, &number, &to_radians, &normalize) {
        Ok(sim) => sim,
        Err(e) => panic!("{:?}", e),
    }
}

fn joints(sim: &Simulation) -> Vec<Handle> {
    let mut ids = sim.joint_ids();
    ids.sort_by_key(|id| id.index);
    ids
}

fn at(sim: &Simulation, id: Handle) -> glam::Vec3 {
    point(sim.joint(id).unwrap().position)
}

fn index(id: Handle) -> Index {
    Index::from_raw_parts(id.index, id.generation)
}

fn all_satisfied(sim: &Simulation) -> bool {
    sim.constraints.iter().all(|c| c.is_satisfied(sim, &check))
}

const FOUR_BAR: &str = "sim fourbar {
    joint A, 0, 0, 0
    joint B, 2, 0, 0
    joint C, 2, 0, 2
    joint D, 0, 0, 2
    link AB, A, B
    link BC, B, C
    link CD, C, D
    link DA, D, A
    distance(A, B) = 2
    distance(B, C) = 2
    distance(C, D) = 2
    distance(D, A) = 2
    fixed(A, B)
    plane(A, B, C, D) normal=Y point=(0, 0, 0)
}";

#[test]
fn fixed_position_puts_the_joint_at_its_target() {
    let mut sim = compiled("sim s { joint A, 1, 2, 3 joint B, 4, 5, 6 }");
    let ids = joints(&sim);
    let target = Position::Vec3(vec3(0.1, -0.2, 0.3));
    let held = FixedPositionConstraint { joint_id: ids[0], target_position: target };
    assert!(!held.is_satisfied(&sim, &check));
    held.apply(&mut sim);
    assert_eq!(sim.joint(ids[0]).unwrap().position, target);
    assert_eq!(sim.joint(ids[1]).unwrap().position, Position::Vec3(vec3(4.0, 5.0, 6.0)));
    assert!(held.is_satisfied(&sim, &check));
    held.apply(&mut sim);
    assert_eq!(sim.joint(ids[0]).unwrap().position, target);
}

#[test]
fn fixed_position_keeps_a_planar_target_planar() {
    let mut sim = compiled("sim s { joint A, 1, 2, 3 }");
    let id = joints(&sim)[0];
    let target = Position::Vec2(Vec2::new(scalar(7.0), scalar(8.0)));
    Constraint::FixedPosition(FixedPositionConstraint { joint_id: id, target_position: target })
        .apply(&mut sim, &kernel);
    assert_eq!(sim.joint(id).unwrap().position, target);
}

#[test]
fn fixed_constraint_brings_a_dragged_joint_back() {
    let mut sim = compiled("sim s { joint A, 1, 2, 3 fixed(A) }");
    let id = joints(&sim)[0];
    assert!(sim.set_position(id, Position::Vec3(vec3(9.0, 9.0, 9.0))));
    assert!(!all_satisfied(&sim));
    sim.step(scalar(0.0), 1, &kernel);
    assert_eq!(sim.joint(id).unwrap().position, Position::Vec3(vec3(1.0, 2.0, 3.0)));
    assert!(all_satisfied(&sim));
}

fn distance_after_step(ax: f32, bx: f32, by: f32, bz: f32, target: &str, iterations: usize) -> f32 {
    let text = format!(
        "sim s {{ joint A, {}, 0, 0 joint B, {}, {}, {} distance(A, B) = {} }}",
        ax, bx, by, bz, target
    );
    let mut sim = compiled(&text);
    let ids = joints(&sim);
    sim.step(scalar(0.016), iterations, &kernel);
    assert!(all_satisfied(&sim));
    at(&sim, ids[0]).distance(at(&sim, ids[1]))
}

#[test]
fn distance_constraint_converges() {
    assert!((distance_after_step(0.0, 5.0, 0.0, 0.0, "2", 10) - 2.0).abs() < 1e-6);
    assert!((distance_after_step(0.0, 0.5, 0.0, 0.0, "2", 10) - 2.0).abs() < 1e-6);
    assert!((distance_after_step(-1.0, 1.0, 2.0, -3.0, "1.5", 10) - 1.5).abs() < 1e-6);
    assert!((distance_after_step(1.0, 0.25, 0.5, 0.125, "0.75", 25) - 0.75).abs() < 1e-6);
}

#[test]
fn distance_correction_is_split_evenly() {
    let mut sim = compiled("sim s { joint A, 0, 0, 0 joint B, 4, 0, 0 distance(A, B) = 2 }");
    let ids = joints(&sim);
    sim.constraints[0].clone().apply(&mut sim, &kernel);
    assert_eq!(at(&sim, ids[0]), glam::Vec3::new(1.0, 0.0, 0.0));
    assert_eq!(at(&sim, ids[1]), glam::Vec3::new(3.0, 0.0, 0.0));
}

#[test]
fn distance_between_coinciding_joints_is_left_alone() {
    let mut sim = compiled("sim s { joint A, 1, 1, 1 joint B, 1, 1, 1 distance(A, B) = 2 }");
    let ids = joints(&sim);
    sim.step(scalar(0.0), 5, &kernel);
    assert_eq!(at(&sim, ids[0]), glam::Vec3::ONE);
    assert_eq!(at(&sim, ids[1]), glam::Vec3::ONE);
    assert!(!all_satisfied(&sim));
}

#[test]
fn distance_from_a_joint_to_itself_moves_nothing() {
    let mut sim = compiled("sim s { joint A, 1, 2 distance(A, A) = 2 }");
    let id = joints(&sim)[0];
    let before = sim.joint(id).unwrap().position;
    sim.step(scalar(0.0), 3, &kernel);
    assert_eq!(sim.joint(id).unwrap().position, before);
    assert!(!sim.constraints[0].is_satisfied(&sim, &check));
}

#[test]
fn four_bar_keeps_its_shape() {
    let mut sim = compiled(FOUR_BAR);
    let ids = joints(&sim);
    let (a, b, c, d) = (ids[0], ids[1], ids[2], ids[3]);
    assert_eq!(at(&sim, c), glam::Vec3::new(2.0, 0.0, 2.0));
    sim.step(scalar(0.016), 10, &kernel);
    for (first, second) in [(a, b), (b, c), (c, d), (d, a)] {
        assert!((at(&sim, first).distance(at(&sim, second)) - 2.0).abs() < 1e-6);
    }
    for id in [a, b, c, d] {
        assert!(at(&sim, id).y.abs() < 1e-6);
    }
    assert!(all_satisfied(&sim));
}

#[test]
fn four_bar_follows_a_dragged_joint() {
    let mut sim = compiled(FOUR_BAR);
    let ids = joints(&sim);
    let (a, b, c, d) = (ids[0], ids[1], ids[2], ids[3]);
    sim.set_position(c, Position::Vec3(vec3(3.0, 0.5, 1.5)));
    sim.step(scalar(0.016), 200, &kernel);
    assert_eq!(at(&sim, a), glam::Vec3::new(0.0, 0.0, 0.0));
    assert_eq!(at(&sim, b), glam::Vec3::new(2.0, 0.0, 0.0));
    for (first, second) in [(a, b), (b, c), (c, d), (d, a)] {
        assert!((at(&sim, first).distance(at(&sim, second)) - 2.0).abs() < 1e-4);
    }
    for id in [a, b, c, d] {
        assert!(at(&sim, id).y.abs() < 1e-6);
    }
    assert_eq!(sim.joint_count(), 4);
    assert_eq!(sim.link_count(), 4);
    assert_eq!(sim.constraints.len(), 10);
    for id in ids {
        assert_eq!(sim.joint(id).unwrap().connected_links.len(), 2);
    }
}

#[test]
fn plane_projects_in_one_application() {
    let mut sim = compiled("sim s { joint A, 1, 5, -2 plane(A) normal=Y point=(0, 1, 0) }");
    let id = joints(&sim)[0];
    assert!(!all_satisfied(&sim));
    sim.solve_constraints(&kernel);
    assert_eq!(at(&sim, id), glam::Vec3::new(1.0, 1.0, -2.0));
    assert!(all_satisfied(&sim));
}

#[test]
fn plane_lifts_a_planar_joint_into_space() {
    let mut sim = compiled("sim s { joint A, 1, 5 plane(A) normal=X }");
    let id = joints(&sim)[0];
    sim.solve_constraints(&kernel);
    assert_eq!(sim.joint(id).unwrap().position, Position::Vec3(vec3(0.0, 5.0, 0.0)));
}

#[test]
fn prismatic_vector_projects_onto_the_line() {
    let mut sim =
        compiled("sim s { joint A, 3, 4, 5 prismatic_vector(A) axis=(0, 0, 2) origin=(1, 1, 1) }");
    let id = joints(&sim)[0];
    assert!(!all_satisfied(&sim));
    sim.solve_constraints(&kernel);
    assert_eq!(at(&sim, id), glam::Vec3::new(1.0, 1.0, 5.0));
    assert!(all_satisfied(&sim));
}

#[test]
fn prismatic_link_follows_the_link() {
    let mut sim = compiled(
        "sim s {
            joint A, 0, 0, 0
            joint B, 0, 3, 0
            joint E, 2, 7, -1
            link AB, A, B
            prismatic_link(E) link=AB origin=(0, 0, 0)
        }",
    );
    let ids = joints(&sim);
    sim.solve_constraints(&kernel);
    assert_eq!(at(&sim, ids[2]), glam::Vec3::new(0.0, 7.0, 0.0));
    assert!(all_satisfied(&sim));
    sim.set_position(ids[1], Position::Vec3(vec3(5.0, 0.0, 0.0)));
    sim.solve_constraints(&kernel);
    assert_eq!(at(&sim, ids[2]), glam::Vec3::new(0.0, 0.0, 0.0));
}

#[test]
fn fixed_angle_aims_at_the_chord() {
    let (r_a, r_b, theta) = (2.0f32, 3.0f32, 60.0f32.to_radians());
    let want = (r_a * r_a + r_b * r_b - 2.0 * r_a * r_b * theta.cos()).sqrt();
    let pivot = glam::Vec3::new(1.0, 1.0, 0.0);
    let a = pivot + glam::Vec3::new(r_a, 0.0, 0.0);
    let c = pivot + glam::Vec3::new(r_b * theta.cos(), r_b * theta.sin(), 0.0);
    assert!((chord(a, c, pivot, theta) - want).abs() < 1e-6);
    assert!((a.distance(c) - want).abs() < 1e-5);
    let text = format!(
        "sim s {{ joint A, {}, {}, 0 joint P, 1, 1, 0 joint C, {}, {}, 0 fixed_angle(A, P, C) = 60deg }}",
        a.x, a.y, c.x, c.y
    );
    let mut sim = compiled(&text);
    let ids = joints(&sim);
    assert!(all_satisfied(&sim));
    sim.step(scalar(0.0), 10, &kernel);
    assert!((at(&sim, ids[0]).distance(at(&sim, ids[2])) - want).abs() < 1e-4);
    assert_eq!(at(&sim, ids[1]), pivot);
}

#[test]
fn fixed_angle_corrects_toward_the_chord() {
    let mut sim = compiled(
        "sim s { joint A, 2, 0, 0 joint P, 0, 0, 0 joint C, 0, 2, 0 fixed_angle(A, P, C) = 60deg }",
    );
    let ids = joints(&sim);
    assert!(!all_satisfied(&sim));
    let (a, pivot, c) = (at(&sim, ids[0]), at(&sim, ids[1]), at(&sim, ids[2]));
    let target = chord(a, c, pivot, 60.0f32.to_radians());
    assert!((target - 2.0).abs() < 1e-6);
    sim.constraints[0].clone().apply(&mut sim, &kernel);
    assert!((at(&sim, ids[0]).distance(at(&sim, ids[2])) - target).abs() < 1e-6);
    assert_eq!(at(&sim, ids[1]), pivot);
}

#[test]
fn revolute_clamps_to_the_upper_bound() {
    let start = glam::Vec3::new(1.0f32.cos() * 2.0, 1.0f32.sin() * 2.0, 0.0);
    let text = format!(
        "sim s {{ joint P, 0, 0, 0 joint M, {}, {}, 0 revolute(P, M) axis=X min=-0.5 max=0.5 }}",
        start.x, start.y
    );
    let mut sim = compiled(&text);
    let ids = joints(&sim);
    let radius = at(&sim, ids[1]).length();
    assert!(!all_satisfied(&sim));
    sim.constraints[0].clone().apply(&mut sim, &kernel);
    let moved = at(&sim, ids[1]);
    let (angle, _, _) = signed_angle(at(&sim, ids[0]), moved, glam::Vec3::X).unwrap();
    assert!((angle - 0.5).abs() < 1e-5);
    assert!((moved.length() - radius).abs() < 1e-6);
    assert!((moved - glam::Vec3::new(0.5f32.cos() * 2.0, 0.5f32.sin() * 2.0, 0.0)).length() < 1e-5);
    assert_eq!(at(&sim, ids[0]), glam::Vec3::ZERO);
    assert!(all_satisfied(&sim));
}

#[test]
fn revolute_inside_its_bounds_moves_nothing() {
    let mut sim = compiled(
        "sim s { joint P, 0, 0, 0 joint M, 1, 0.25, 0 revolute(P, M) axis=(3, 0, 0) min=0 max=1 }",
    );
    let ids = joints(&sim);
    let before = sim.joint(ids[1]).unwrap().position;
    assert!(all_satisfied(&sim));
    sim.step(scalar(0.0), 4, &kernel);
    assert_eq!(sim.joint(ids[1]).unwrap().position, before);
}

#[test]
fn revolute_along_its_rest_direction_is_degenerate() {
    let mut sim = compiled(
        "sim s { joint P, 0, 0, 0 joint M, 2, 0, 0 revolute(P, M) axis=X min=0.5 max=1 }",
    );
    let ids = joints(&sim);
    let before = sim.joint(ids[1]).unwrap().position;
    sim.step(scalar(0.0), 2, &kernel);
    assert_eq!(sim.joint(ids[1]).unwrap().position, before);
    assert!(!all_satisfied(&sim));
}

#[test]
fn step_runs_twice_as_many_passes() {
    let mut sim = compiled("sim s { joint A, 1, 5, -2 plane(A) normal=Y fixed(A) plane(A) normal=X }");
    let calls = Cell::new(0usize);
    let counting = |problem: Problem| {
        calls.set(calls.get() + 1);
        kernel(problem)
    };
    sim.step(scalar(0.0), 3, &counting);
    assert_eq!(calls.get(), 2 * 3 * 2);
    calls.set(0);
    sim.step(scalar(0.0), 0, &counting);
    assert_eq!(calls.get(), 0);
    sim.solve_constraints(&counting);
    assert_eq!(calls.get(), 2);
}

#[test]
fn constraints_are_applied_in_order() {
    let text = |first: &str, second: &str| {
        format!("sim s {{ joint A, 1, 1, 1 {} {} }}", first, second)
    };
    let plane = "plane(A) normal=Y point=(0, 5, 0)";
    let line = "prismatic_vector(A) axis=X origin=(0, 0, 0)";
    let mut sim = compiled(&text(plane, line));
    let id = joints(&sim)[0];
    sim.solve_constraints(&kernel);
    assert_eq!(at(&sim, id), glam::Vec3::new(1.0, 0.0, 0.0));
    let mut sim = compiled(&text(line, plane));
    let id = joints(&sim)[0];
    sim.solve_constraints(&kernel);
    assert_eq!(at(&sim, id), glam::Vec3::new(1.0, 5.0, 0.0));
}

#[test]
fn a_later_constraint_sees_what_an_earlier_one_did() {
    let mut sim = compiled(
        "sim s { joint A, 0, 0, 0 joint B, 4, 3, 0 plane(B) normal=Y distance(A, B) = 2 }",
    );
    let seen = Cell::new(None);
    let watching = |problem: Problem| {
        if let Problem::Distance { b, .. } = problem {
            seen.set(Some(b));
        }
        kernel(problem)
    };
    sim.solve_constraints(&watching);
    assert_eq!(seen.get(), Some(Position::Vec3(vec3(4.0, 0.0, 0.0))));
}

#[test]
fn the_kernel_is_handed_what_the_constraint_holds() {
    let mut sim = compiled(
        "sim s {
            joint P, 0, 0, 0
            joint M, 1, 2, 3
            joint C, 4, 5
            link PM, P, M
            revolute(P, M) axis=(0, 0, 2) min=-1 max=1
            fixed_angle(M, P, C) = 0.5
            prismatic_link(C) link=PM origin=(7, 8, 9)
        }",
    );
    let seen = Cell::new(Vec::new());
    let recording = |problem: Problem| {
        let mut all = seen.take();
        all.push(problem);
        seen.set(all);
        Correction { first: None, second: None }
    };
    sim.solve_constraints(&recording);
    let seen = seen.take();
    let p = Position::Vec3(vec3(0.0, 0.0, 0.0));
    let m = Position::Vec3(vec3(1.0, 2.0, 3.0));
    let c = Position::Vec2(Vec2::new(scalar(4.0), scalar(5.0)));
    assert_eq!(seen.len(), 3);
    match seen[0] {
        Problem::Revolute { pivot, moving, rest_direction, min_angle, max_angle } => {
            assert_eq!((pivot, moving), (p, m));
            assert_eq!(rest_direction, vec3(0.0, 0.0, 2.0));
            assert_eq!((min_angle, max_angle), (scalar(-1.0), scalar(1.0)));
        }
        other => panic!("{:?}", other),
    }
    match seen[1] {
        Problem::FixedAngle { a, b, pivot, target_angle } => {
            assert_eq!((a, b, pivot), (m, c, p));
            assert_eq!(target_angle, scalar(0.5));
        }
        other => panic!("{:?}", other),
    }
    match seen[2] {
        Problem::PrismaticLink { position: at, start, end, origin } => {
            assert_eq!((at, start, end), (c, p, m));
            assert_eq!(origin, vec3(7.0, 8.0, 9.0));
        }
        other => panic!("{:?}", other),
    }
}

#[test]
fn a_correction_moves_only_the_joints_of_the_constraint() {
    let mut sim = compiled(
        "sim s { joint A, 0, 0, 0 joint B, 1, 0, 0 joint C, 2, 0, 0 revolute(A, B) axis=X min=0 max=1 }",
    );
    let ids = joints(&sim);
    let both = |_: Problem| Correction {
        first: Some(Position::Vec3(vec3(5.0, 5.0, 5.0))),
        second: Some(Position::Vec3(vec3(6.0, 6.0, 6.0))),
    };
    sim.solve_constraints(&both);
    assert_eq!(at(&sim, ids[0]), glam::Vec3::ZERO);
    assert_eq!(at(&sim, ids[1]), glam::Vec3::splat(5.0));
    assert_eq!(at(&sim, ids[2]), glam::Vec3::new(2.0, 0.0, 0.0));
    let mut sim = compiled(
        "sim s { joint A, 0, 0, 0 joint B, 1, 0, 0 joint C, 2, 0, 0 distance(C, A) = 1 }",
    );
    sim.solve_constraints(&both);
    assert_eq!(at(&sim, ids[0]), glam::Vec3::splat(6.0));
    assert_eq!(at(&sim, ids[1]), glam::Vec3::new(1.0, 0.0, 0.0));
    assert_eq!(at(&sim, ids[2]), glam::Vec3::splat(5.0));
}

fn every_kind(joint: Handle, other: Handle, link: Handle) -> Vec<Constraint> {
    vec![
        Constraint::FixedPosition(FixedPositionConstraint {
            joint_id: joint,
            target_position: Position::Vec3(vec3(9.0, 9.0, 9.0)),
        }),
        Constraint::Distance(DistanceConstraint {
            joint_a: joint,
            joint_b: other,
            target_distance: scalar(7.0),
        }),
        Constraint::Distance(DistanceConstraint {
            joint_a: other,
            joint_b: joint,
            target_distance: scalar(7.0),
        }),
        Constraint::Plane(PlaneConstraint {
            joint_id: joint,
            normal: Vec3::unit_y(),
            plane_point: vec3(0.0, 7.0, 0.0),
        }),
        Constraint::PrismaticVector(PrismaticConstraintVector {
            joint_id: joint,
            axis: Vec3::unit_y(),
            origin: vec3(7.0, 7.0, 7.0),
        }),
        Constraint::PrismaticLink(PrismaticConstraintLink {
            joint_id: other,
            link_id: link,
            origin: vec3(7.0, 7.0, 7.0),
        }),
        Constraint::FixedAngle(FixedAngleConstraint {
            joint_a_id: other,
            joint_b_id: joint,
            pivot_joint_id: other,
            target_angle: scalar(1.0),
        }),
        Constraint::FixedAngle(FixedAngleConstraint {
            joint_a_id: other,
            joint_b_id: other,
            pivot_joint_id: joint,
            target_angle: scalar(1.0),
        }),
        Constraint::Revolute(RevoluteConstraint {
            pivot_joint_id: joint,
            moving_joint_id: other,
            rest_direction: Vec3::unit_y(),
            min_angle: scalar(0.0),
            max_angle: scalar(0.1),
        }),
        Constraint::Revolute(RevoluteConstraint {
            pivot_joint_id: other,
            moving_joint_id: joint,
            rest_direction: Vec3::unit_y(),
            min_angle: scalar(0.0),
            max_angle: scalar(0.1),
        }),
    ]
}

#[test]
fn a_handle_that_does_not_resolve_leaves_everything_alone() {
    let mut sim = compiled("sim s { joint A, 0, 0, 0 joint B, 1, 0, 0 link AB, A, B }");
    let ids = joints(&sim);
    let link = sim.link_ids()[0];
    let gone = ids[0];
    sim.joints.remove(index(gone));
    assert!(sim.joint(gone).is_none());
    assert_eq!(sim.joint_count(), 1);
    sim.constraints = every_kind(gone, ids[1], link);
    let before = sim.joint(ids[1]).unwrap().position;
    let calls = Cell::new(0usize);
    let counting = |problem: Problem| {
        calls.set(calls.get() + 1);
        kernel(problem)
    };
    sim.step(scalar(0.0), 2, &counting);
    assert_eq!(calls.get(), 0);
    assert_eq!(sim.joint(ids[1]).unwrap().position, before);
    assert_eq!(sim.joint_count(), 1);
    assert_eq!(sim.constraints.len(), 10);
    for constraint in &sim.constraints {
        assert!(!constraint.is_satisfied(&sim, &|_: Problem| true));
    }
}

#[test]
fn a_handle_of_an_earlier_generation_does_not_resolve() {
    let mut sim = compiled("sim s { joint A, 0, 0, 0 joint B, 1, 0, 0 }");
    let ids = joints(&sim);
    let old = ids[0];
    let b = ids[1];
    let joint = sim.joints.remove(index(old)).unwrap();
    let (slot, generation) = sim.joints.insert(joint).into_raw_parts();
    let new = Handle { index: slot, generation };
    assert_eq!(new.index, old.index);
    assert!(new.generation != old.generation);
    assert!(sim.joint(old).is_none());
    assert!(sim.joint(new).is_some());
    assert_eq!(sim.position_of(old), None);
    assert!(!sim.set_position(old, Position::Vec3(vec3(5.0, 5.0, 5.0))));
    assert_eq!(at(&sim, new), glam::Vec3::ZERO);
    assert!(sim.get_two_joints_mut(old, new).is_none());
    assert!(sim.get_two_joints_mut(new, old).is_none());
    assert!(sim.get_two_joints_mut(old, b).is_none());
    assert!(sim.get_two_joints_mut(b, old).is_none());
    assert!(sim.get_two_joints_mut(new, b).is_some());
    let stale = Constraint::Plane(PlaneConstraint {
        joint_id: old,
        normal: Vec3::unit_x(),
        plane_point: vec3(3.0, 0.0, 0.0),
    });
    stale.apply(&mut sim, &kernel);
    assert_eq!(at(&sim, new), glam::Vec3::ZERO);
    assert!(!stale.is_satisfied(&sim, &check));
}

#[test]
fn a_link_without_two_resolving_ends_gives_no_line() {
    let mut sim = compiled(
        "sim s { joint A, 0, 0, 0 joint B, 0, 1, 0 joint E, 3, 3, 3 link AB, A, B prismatic_link(E) link=AB origin=(0, 0, 0) }",
    );
    let ids = joints(&sim);
    let link = sim.link_ids()[0];
    sim.links.get_mut(index(link)).unwrap().joints.pop();
    sim.solve_constraints(&kernel);
    assert_eq!(at(&sim, ids[2]), glam::Vec3::splat(3.0));
    assert!(!all_satisfied(&sim));
    sim.links.get_mut(index(link)).unwrap().joints.push(ids[1]);
    sim.solve_constraints(&kernel);
    assert_eq!(at(&sim, ids[2]), glam::Vec3::new(0.0, 3.0, 0.0));
    sim.links.remove(index(link));
    sim.set_position(ids[2], Position::Vec3(vec3(3.0, 3.0, 3.0)));
    sim.solve_constraints(&kernel);
    assert_eq!(at(&sim, ids[2]), glam::Vec3::splat(3.0));
    assert!(!all_satisfied(&sim));
}

#[test]
fn two_joints_can_be_changed_together() {
    let mut sim = compiled("sim s { joint A, 0, 0, 0 joint B, 1, 0, 0 joint C, 2, 0, 0 }");
    let ids = joints(&sim);
    assert!(sim.get_two_joints_mut(ids[0], ids[0]).is_none());
    {
        let (first, second) = sim.get_two_joints_mut(ids[2], ids[0]).unwrap();
        assert_eq!(point(first.position), glam::Vec3::new(2.0, 0.0, 0.0));
        assert_eq!(point(second.position), glam::Vec3::ZERO);
        first.position = Position::Vec3(vec3(7.0, 0.0, 0.0));
        second.position = Position::Vec3(vec3(8.0, 0.0, 0.0));
    }
    assert_eq!(at(&sim, ids[0]), glam::Vec3::new(8.0, 0.0, 0.0));
    assert_eq!(at(&sim, ids[1]), glam::Vec3::new(1.0, 0.0, 0.0));
    assert_eq!(at(&sim, ids[2]), glam::Vec3::new(7.0, 0.0, 0.0));
    let nowhere = Handle { index: 99, generation: 0 };
    assert!(sim.get_two_joints_mut(ids[0], nowhere).is_none());
    assert!(sim.get_two_joints_mut(nowhere, ids[0]).is_none());
}

#[test]
fn set_position_moves_one_joint() {
    let mut sim = compiled("sim s { joint A, 0, 0 joint B, 1, 0 link AB, A, B }");
    let ids = joints(&sim);
    let to = Position::Vec3(vec3(1.0, 2.0, 3.0));
    assert!(sim.set_position(ids[1], to));
    assert_eq!(sim.position_of(ids[1]), Some(to));
    assert_eq!(sim.joint(ids[1]).unwrap().connected_links.len(), 1);
    assert_eq!(
        sim.position_of(ids[0]),
        Some(Position::Vec2(Vec2::new(scalar(0.0), scalar(0.0))))
    );
    assert!(!sim.set_position(Handle { index: 5, generation: 0 }, to));
    assert_eq!(sim.position_of(Handle { index: 5, generation: 0 }), None);
}

#[test]
fn is_satisfied_is_what_the_check_says() {
    let sim = compiled("sim s { joint A, 1, 2, 3 plane(A) normal=Y }");
    assert!(sim.constraints[0].is_satisfied(&sim, &|_: Problem| true));
    assert!(!sim.constraints[0].is_satisfied(&sim, &|_: Problem| false));
    assert!(!sim.constraints[0].is_satisfied(&sim, &check));
    let asked = Cell::new(None);
    sim.constraints[0].is_satisfied(&sim, &|problem: Problem| {
        asked.set(Some(problem));
        true
    });
    match asked.get() {
        Some(Problem::Plane { position: p, normal, plane_point }) => {
            assert_eq!(p, Position::Vec3(vec3(1.0, 2.0, 3.0)));
            assert_eq!(normal, Vec3::unit_y());
            assert_eq!(plane_point, Vec3::zero());
        }
        other => panic!("{:?}", other),
    }
}
