//! From a syntax tree to a mechanism.
//!
//! Compilation runs over the joints, then over the links, then over the
//! constraints. It stops at the first name that is not declared. A name that
//! is declared twice means its last declaration.
//!
//! The values of the literals come from a function that the caller passes
//! in, as do the conversion of degrees and the normalising of an axis.

use crate::dsl::ast::{
    AngleUnit, Axis, ConstraintDecl, JointDecl, LinkDecl, Literal, Program, VectorLiteral,
};
use crate::dsl::parser::{parsed, UgokuParser};
use crate::error::{CompileError, Role};
use crate::simcore::bindings::{
    all_declared, apply_distance, apply_fixed, apply_fixed_angle, apply_plane,
    apply_prismatic_link, apply_prismatic_vector, apply_revolute, distance_constraint, each_bound,
    first_undeclared, fixed_angle_constraint, fixed_constraints, handles_of, lemma_lookup,
    lemma_lookup_resolves, lookup, plane_constraints, prismatic_link_constraints,
    prismatic_vector_constraints, revolute_constraint, table_resolves, NameTable,
};
use crate::simcore::numeric::{Position, Scalar, Vec2, Vec3};
use crate::simcore::solvers::closed;
use crate::simcore::store::{joint_arena_get_mut, joint_arena_insert, link_arena_insert};
use crate::simcore::types::{
    Constraint, Handle, Joint, JointId, JointType, Link, LinkId, Simulation,
};
use vstd::prelude::*;
use vstd::string::StringSliceAdditionalSpecFns;

verus! {

/// `value` is what `number` makes of the literal `text`.
pub open spec fn evaluates<N: Fn(&str) -> Scalar>(number: &N, text: Seq<char>, value: Scalar) -> bool {
    exists|s: &str| s@ == text && #[trigger] number.ensures((s,), value)
}

/// `out` is what `number` makes of the three literals of a vector.
pub open spec fn vector_value<N: Fn(&str) -> Scalar>(number: &N, v: &VectorLiteral, out: Vec3) -> bool {
    &&& evaluates(number, v.x.text@, out.x)
    &&& evaluates(number, v.y.text@, out.y)
    &&& evaluates(number, v.z.text@, out.z)
}

/// `out` is the direction that was written: the unit vector of the axis
/// named, or the vector given.
pub open spec fn axis_value<N: Fn(&str) -> Scalar>(number: &N, axis: &Axis, out: Vec3) -> bool {
    match axis {
        Axis::X => out == Vec3::spec_unit_x(),
        Axis::Y => out == Vec3::spec_unit_y(),
        Axis::Z => out == Vec3::spec_unit_z(),
        Axis::Vector(v) => vector_value(number, v, out),
    }
}

/// `out` is the point that was written, if one was.
pub open spec fn point_value<N: Fn(&str) -> Scalar>(
    number: &N,
    point: &Option<VectorLiteral>,
    out: Option<Vec3>,
) -> bool {
    match point {
        Some(v) => out is Some && vector_value(number, v, out.unwrap()),
        None => out is None,
    }
}

/// `out` is the angle that was written, in radians: the value of the literal,
/// passed through `to_radians` if it was written in degrees.
pub open spec fn angle_value<N: Fn(&str) -> Scalar, R: Fn(Scalar) -> Scalar>(
    number: &N,
    to_radians: &R,
    angle: &Literal,
    unit: AngleUnit,
    out: Scalar,
) -> bool {
    match unit {
        AngleUnit::Radians => evaluates(number, angle.text@, out),
        AngleUnit::Degrees => exists|degrees: Scalar|
            evaluates(number, angle.text@, degrees) && #[trigger] to_radians.ensures(
                (degrees,),
                out,
            ),
    }
}

/// `position` is where the joint was declared to be: in the plane if two
/// coordinates were written, in space if three.
pub open spec fn joint_position<N: Fn(&str) -> Scalar>(
    number: &N,
    decl: &JointDecl,
    position: Position,
) -> bool {
    match position {
        Position::Vec2(v) => decl.z is None && evaluates(number, decl.x.text@, v.x) && evaluates(
            number,
            decl.y.text@,
            v.y,
        ),
        Position::Vec3(v) => decl.z is Some && evaluates(number, decl.x.text@, v.x) && evaluates(
            number,
            decl.y.text@,
            v.y,
        ) && evaluates(number, decl.z.unwrap().text@, v.z),
    }
}

fn evaluate<N: Fn(&str) -> Scalar>(number: &N, literal: &Literal) -> (value: Scalar)
    requires
        forall|s: &str| number.requires((s,)),
    ensures
        evaluates(number, literal.text@, value),
{
    let text = literal.text.as_str();
    let value = number(text);
    assert(text@ == literal.text@ && number.ensures((text,), value));
    value
}

fn evaluate_vector<N: Fn(&str) -> Scalar>(number: &N, v: &VectorLiteral) -> (out: Vec3)
    requires
        forall|s: &str| number.requires((s,)),
    ensures
        vector_value(number, v, out),
{
    let x = evaluate(number, &v.x);
    let y = evaluate(number, &v.y);
    let z = evaluate(number, &v.z);
    Vec3 { x, y, z }
}

fn evaluate_axis<N: Fn(&str) -> Scalar>(number: &N, axis: &Axis) -> (out: Vec3)
    requires
        forall|s: &str| number.requires((s,)),
    ensures
        axis_value(number, axis, out),
{
    match axis {
        Axis::X => Vec3::unit_x(),
        Axis::Y => Vec3::unit_y(),
        Axis::Z => Vec3::unit_z(),
        Axis::Vector(v) => evaluate_vector(number, v),
    }
}

fn evaluate_point<N: Fn(&str) -> Scalar>(number: &N, point: &Option<VectorLiteral>) -> (out: Option<
    Vec3,
>)
    requires
        forall|s: &str| number.requires((s,)),
    ensures
        point_value(number, point, out),
{
    match point {
        Some(v) => Some(evaluate_vector(number, v)),
        None => None,
    }
}

fn evaluate_angle<N: Fn(&str) -> Scalar, R: Fn(Scalar) -> Scalar>(
    number: &N,
    to_radians: &R,
    angle: &Literal,
    unit: AngleUnit,
) -> (out: Scalar)
    requires
        forall|s: &str| number.requires((s,)),
        forall|d: Scalar| to_radians.requires((d,)),
    ensures
        angle_value(number, to_radians, angle, unit, out),
{
    let value = evaluate(number, angle);
    match unit {
        AngleUnit::Radians => value,
        AngleUnit::Degrees => {
            let out = to_radians(value);
            assert(evaluates(number, angle.text@, value) && to_radians.ensures((value,), out));
            out
        },
    }
}

fn evaluate_position<N: Fn(&str) -> Scalar>(number: &N, decl: &JointDecl) -> (position: Position)
    requires
        forall|s: &str| number.requires((s,)),
    ensures
        joint_position(number, decl, position),
{
    let x = evaluate(number, &decl.x);
    let y = evaluate(number, &decl.y);
    match &decl.z {
        Some(z) => {
            let z = evaluate(number, z);
            Position::Vec3(Vec3 { x, y, z })
        },
        None => Position::Vec2(Vec2 { x, y }),
    }
}

/// The names of the joints, in the order of their declarations.
pub open spec fn joint_names(joints: Seq<JointDecl>) -> Seq<Seq<char>> {
    Seq::new(joints.len(), |i: int| joints[i].name@)
}

/// The names of the links, in the order of their declarations.
pub open spec fn link_names(links: Seq<LinkDecl>) -> Seq<Seq<char>> {
    Seq::new(links.len(), |i: int| links[i].name@)
}

/// The table that gives each name the handle at the same place in `ids`.
pub open spec fn table_of(names: Seq<Seq<char>>, ids: Seq<Handle>) -> Seq<(Seq<char>, Handle)> {
    Seq::new(names.len(), |i: int| (names[i], ids[i]))
}

/// The links that name the joint `id` as an end, in the order of their
/// declarations; a link both of whose ends are the joint stands twice.
pub open spec fn incident(
    links: Seq<LinkDecl>,
    joint_table: Seq<(Seq<char>, Handle)>,
    link_ids: Seq<LinkId>,
    id: JointId,
) -> Seq<LinkId>
    decreases links.len(),
{
    if links.len() == 0 {
        Seq::empty()
    } else {
        let k = links.len() - 1;
        let before = incident(links.drop_last(), joint_table, link_ids, id);
        let with_first = if lookup(joint_table, links[k].joint_a@) == Some(id) {
            before.push(link_ids[k])
        } else {
            before
        };
        if lookup(joint_table, links[k].joint_b@) == Some(id) {
            with_first.push(link_ids[k])
        } else {
            with_first
        }
    }
}

/// The joint is what its declaration says, connected to the links given.
pub open spec fn joint_made<N: Fn(&str) -> Scalar>(
    number: &N,
    decl: &JointDecl,
    joint: Joint,
    connected: Seq<LinkId>,
) -> bool {
    &&& joint_position(number, decl, joint.position)
    &&& joint.joint_type is Revolute
    &&& joint.connected_links@ == connected
}

/// The handles are all different, and they are the handles in use.
pub open spec fn handles_in_use(ids: Seq<Handle>, in_use: Set<Handle>) -> bool {
    ids.no_duplicates() && in_use == ids.to_set()
}

/// The links named by the declarations do not matter beyond how many they are.
proof fn lemma_incident_more_ids(
    links: Seq<LinkDecl>,
    joint_table: Seq<(Seq<char>, Handle)>,
    link_ids: Seq<LinkId>,
    more: Seq<LinkId>,
    id: JointId,
)
    requires
        links.len() <= link_ids.len() <= more.len(),
        forall|k: int| 0 <= k < link_ids.len() ==> link_ids[k] == more[k],
    ensures
        incident(links, joint_table, link_ids, id) == incident(links, joint_table, more, id),
    decreases links.len(),
{
    if links.len() > 0 {
        lemma_incident_more_ids(links.drop_last(), joint_table, link_ids, more, id);
    }
}

/// A joint is connected to exactly the links that name it as an end.
pub proof fn lemma_incident_exact(
    links: Seq<LinkDecl>,
    joint_table: Seq<(Seq<char>, Handle)>,
    link_ids: Seq<LinkId>,
    id: JointId,
    link: LinkId,
)
    requires
        links.len() <= link_ids.len(),
    ensures
        incident(links, joint_table, link_ids, id).contains(link) <==> exists|k: int|
            0 <= k < links.len() && #[trigger] link_ids[k] == link && (lookup(
                joint_table,
                links[k].joint_a@,
            ) == Some(id) || lookup(joint_table, links[k].joint_b@) == Some(id)),
    decreases links.len(),
{
    if links.len() > 0 {
        let last = links.len() - 1;
        let before = incident(links.drop_last(), joint_table, link_ids, id);
        lemma_incident_exact(links.drop_last(), joint_table, link_ids, id, link);
        let all = incident(links, joint_table, link_ids, id);
        let named = lookup(joint_table, links[last].joint_a@) == Some(id) || lookup(
            joint_table,
            links[last].joint_b@,
        ) == Some(id);
        let with_first = if lookup(joint_table, links[last].joint_a@) == Some(id) {
            before.push(link_ids[last])
        } else {
            before
        };
        assert(with_first.contains(link) <==> before.contains(link) || (lookup(
            joint_table,
            links[last].joint_a@,
        ) == Some(id) && link_ids[last] == link)) by {
            if lookup(joint_table, links[last].joint_a@) == Some(id) {
                lemma_push_contains(before, link_ids[last], link);
            }
        }
        assert(all.contains(link) <==> with_first.contains(link) || (lookup(
            joint_table,
            links[last].joint_b@,
        ) == Some(id) && link_ids[last] == link)) by {
            if lookup(joint_table, links[last].joint_b@) == Some(id) {
                lemma_push_contains(with_first, link_ids[last], link);
            }
        }
        if all.contains(link) {
            if before.contains(link) {
                let k = choose|k: int|
                    0 <= k < links.drop_last().len() && #[trigger] link_ids[k] == link && (lookup(
                        joint_table,
                        links.drop_last()[k].joint_a@,
                    ) == Some(id) || lookup(joint_table, links.drop_last()[k].joint_b@) == Some(
                        id,
                    ));
                assert(links.drop_last()[k] == links[k]);
                assert(0 <= k < links.len() && link_ids[k] == link);
            } else {
                assert(link_ids[last] == link && named);
            }
        }
        if exists|k: int|
            0 <= k < links.len() && #[trigger] link_ids[k] == link && (lookup(
                joint_table,
                links[k].joint_a@,
            ) == Some(id) || lookup(joint_table, links[k].joint_b@) == Some(id)) {
            let k = choose|k: int|
                0 <= k < links.len() && #[trigger] link_ids[k] == link && (lookup(
                    joint_table,
                    links[k].joint_a@,
                ) == Some(id) || lookup(joint_table, links[k].joint_b@) == Some(id));
            if k < last {
                assert(links.drop_last()[k] == links[k]);
                assert(0 <= k < links.drop_last().len() && link_ids[k] == link);
            }
        }
    }
}

proof fn lemma_push_contains(s: Seq<LinkId>, pushed: LinkId, x: LinkId)
    ensures
        s.push(pushed).contains(x) <==> s.contains(x) || pushed == x,
{
    let t = s.push(pushed);
    if s.contains(x) {
        let i = choose|i: int| 0 <= i < s.len() && s[i] == x;
        assert(t[i] == x);
    }
    if pushed == x {
        assert(t[s.len() as int] == x);
    }
    if t.contains(x) {
        let i = choose|i: int| 0 <= i < t.len() && t[i] == x;
        if i < s.len() {
            assert(s[i] == x);
        }
    }
}

/// Makes a joint for each declaration, with no links yet.
fn declare_joints<N: Fn(&str) -> Scalar>(
    sim: &mut Simulation,
    decls: &Vec<JointDecl>,
    number: &N,
) -> (r: (NameTable, Ghost<Seq<JointId>>))
    requires
        forall|s: &str| number.requires((s,)),
        old(sim).joint_map() == Map::<JointId, Joint>::empty(),
    ensures
        r.0@ == table_of(joint_names(decls@), r.1@),
        r.1@.len() == decls@.len(),
        handles_in_use(r.1@, final(sim).joint_map().dom()),
        forall|i: int|
            0 <= i < decls@.len() ==> joint_made(
                number,
                &decls@[i],
                final(sim).joint_map()[#[trigger] r.1@[i]],
                Seq::empty(),
            ),
        final(sim).link_map() == old(sim).link_map(),
        final(sim).constraints == old(sim).constraints,
{
    let mut table = NameTable::new();
    let ghost mut ids = Seq::<JointId>::empty();
    let mut i: usize = 0;
    assert(table@ =~= table_of(joint_names(decls@.take(0)), ids));
    assert(sim.joint_map().dom() =~= ids.to_set());
    while i < decls.len()
        invariant
            forall|s: &str| number.requires((s,)),
            i <= decls@.len(),
            ids.len() == i,
            handles_in_use(ids, sim.joint_map().dom()),
            table@ == table_of(joint_names(decls@.take(i as int)), ids),
            forall|k: int|
                0 <= k < i ==> joint_made(
                    number,
                    &decls@[k],
                    sim.joint_map()[#[trigger] ids[k]],
                    Seq::empty(),
                ),
            sim.link_map() == old(sim).link_map(),
            sim.constraints == old(sim).constraints,
        decreases decls@.len() - i,
    {
        let position = evaluate_position(number, &decls[i]);
        let joint = Joint { position, joint_type: JointType::Revolute, connected_links: Vec::new() };
        let ghost before = sim.joint_map();
        let id = joint_arena_insert(&mut sim.joints, joint);
        table.insert(decls[i].name.clone(), id);
        proof {
            let longer = ids.push(id);
            assert(!ids.contains(id)) by {
                if ids.contains(id) {
                    assert(ids.to_set().contains(id));
                }
            }
            assert(sim.joint_map().dom() =~= longer.to_set()) by {
                assert forall|h: Handle| sim.joint_map().dom().contains(h)
                    == longer.to_set().contains(h) by {
                    lemma_push_contains(ids, id, h);
                    assert(ids.to_set().contains(h) == ids.contains(h));
                    assert(longer.to_set().contains(h) == longer.contains(h));
                }
            }
            assert(table@ =~= table_of(joint_names(decls@.take(i + 1)), longer));
            assert forall|k: int| 0 <= k < i + 1 implies joint_made(
                number,
                &decls@[k],
                sim.joint_map()[#[trigger] longer[k]],
                Seq::empty(),
            ) by {
                if k < i {
                    assert(longer[k] == ids[k]);
                    assert(ids.contains(ids[k]));
                    assert(before.contains_key(ids[k])) by {
                        assert(ids.to_set().contains(ids[k]));
                    }
                }
            }
            ids = longer;
        }
        i += 1;
    }
    assert(decls@.take(i as int) =~= decls@);
    (table, Ghost(ids))
}

/// The name is not among those declared.
pub open spec fn undeclared(declared: Seq<Seq<char>>, name: Seq<char>) -> bool {
    !declared.contains(name)
}

/// The first end of the link that is not a declared joint, if there is one.
pub open spec fn link_missing(joints: Seq<Seq<char>>, link: &LinkDecl) -> Option<(Role, Seq<char>)> {
    if undeclared(joints, link.joint_a@) {
        Some((Role::Joint, link.joint_a@))
    } else if undeclared(joints, link.joint_b@) {
        Some((Role::Joint, link.joint_b@))
    } else {
        None
    }
}

/// The first name in the links, in their order, that is not a declared joint.
pub open spec fn links_missing(joints: Seq<Seq<char>>, links: Seq<LinkDecl>) -> Option<
    (Role, Seq<char>),
>
    decreases links.len(),
{
    if links.len() == 0 {
        None
    } else {
        match links_missing(joints, links.drop_last()) {
            Some(missing) => Some(missing),
            None => link_missing(joints, &links.last()),
        }
    }
}

/// A name that is missing from the first links is missing from all of them.
pub proof fn lemma_links_missing_found(joints: Seq<Seq<char>>, links: Seq<LinkDecl>, upto: int)
    requires
        0 <= upto <= links.len(),
        links_missing(joints, links.take(upto)) is Some,
    ensures
        links_missing(joints, links) == links_missing(joints, links.take(upto)),
    decreases links.len() - upto,
{
    if upto < links.len() {
        assert(links.take(upto + 1).drop_last() =~= links.take(upto));
        lemma_links_missing_found(joints, links, upto + 1);
    } else {
        assert(links.take(upto) =~= links);
    }
}

/// A name is found in a table exactly if it is among the names of the table.
pub proof fn lemma_lookup_declared(names: Seq<Seq<char>>, ids: Seq<Handle>, name: Seq<char>)
    ensures
        lookup(table_of(names, ids), name) is None <==> undeclared(names, name),
{
    let entries = table_of(names, ids);
    lemma_lookup(entries, name);
    if lookup(entries, name) is Some {
        let i = choose|i: int| 0 <= i < entries.len() && (#[trigger] entries[i]).0 == name;
        assert(names[i] == name);
    }
    if names.contains(name) {
        let i = choose|i: int| 0 <= i < names.len() && names[i] == name;
        assert(entries[i].0 == name);
    }
}

/// The link is rigid and joins the joints that its declaration names.
pub open spec fn link_made(joint_table: Seq<(Seq<char>, Handle)>, decl: &LinkDecl, link: Link) -> bool {
    &&& link.rigid
    &&& link.joints@ == seq![
        lookup(joint_table, decl.joint_a@).unwrap(),
        lookup(joint_table, decl.joint_b@).unwrap(),
    ]
}

/// Connects a joint to a link.
fn attach(sim: &mut Simulation, joint: JointId, link: LinkId)
    requires
        old(sim).joint_map().contains_key(joint),
    ensures
        final(sim).joint_map().dom() == old(sim).joint_map().dom(),
        forall|other: JointId|
            other != joint && old(sim).joint_map().contains_key(other) ==> #[trigger] final(sim).joint_map()[other] == old(sim).joint_map()[other],
        final(sim).joint_map()[joint].position == old(sim).joint_map()[joint].position,
        final(sim).joint_map()[joint].joint_type == old(sim).joint_map()[joint].joint_type,
        final(sim).joint_map()[joint].connected_links@ == old(sim).joint_map()[joint].connected_links@.push(link),
        final(sim).link_map() == old(sim).link_map(),
        final(sim).constraints == old(sim).constraints,
{
    match joint_arena_get_mut(&mut sim.joints, joint) {
        Some(found) => {
            found.connected_links.push(link);
        },
        None => {},
    }
    assert(sim.joint_map().dom() =~= old(sim).joint_map().dom());
}

/// Makes a link for each declaration and connects its two joints to it.
fn declare_links(
    sim: &mut Simulation,
    decls: &Vec<LinkDecl>,
    joint_name_to_id: &NameTable,
    Ghost(names): Ghost<Seq<Seq<char>>>,
    Ghost(joint_ids): Ghost<Seq<JointId>>,
) -> (r: Result<(NameTable, Ghost<Seq<LinkId>>), CompileError>)
    requires
        old(sim).link_map() == Map::<LinkId, Link>::empty(),
        joint_name_to_id@ == table_of(names, joint_ids),
        names.len() == joint_ids.len(),
        old(sim).joint_map().dom() == joint_ids.to_set(),
        forall|id: JointId| #[trigger]
            old(sim).joint_map().contains_key(id) ==> old(sim).joint_map()[id].connected_links@
                == Seq::<LinkId>::empty(),
    ensures
        match r {
            Ok((table, link_ids)) => {
                &&& links_missing(names, decls@) is None
                &&& table@ == table_of(link_names(decls@), link_ids@)
                &&& link_ids@.len() == decls@.len()
                &&& handles_in_use(link_ids@, final(sim).link_map().dom())
                &&& forall|k: int|
                    0 <= k < decls@.len() ==> link_made(
                        joint_name_to_id@,
                        &decls@[k],
                        final(sim).link_map()[#[trigger] link_ids@[k]],
                    )
                &&& final(sim).joint_map().dom() == old(sim).joint_map().dom()
                &&& forall|id: JointId| #[trigger]
                    old(sim).joint_map().contains_key(id) ==> {
                        &&& final(sim).joint_map()[id].position == old(sim).joint_map()[id].position
                        &&& final(sim).joint_map()[id].joint_type == old(sim).joint_map()[id].joint_type
                        &&& final(sim).joint_map()[id].connected_links@ == incident(
                            decls@,
                            joint_name_to_id@,
                            link_ids@,
                            id,
                        )
                    }
            },
            Err(e) => links_missing(names, decls@) is Some && links_missing(names, decls@)
                == e.missing(),
        },
        final(sim).constraints == old(sim).constraints,
{
    let mut table = NameTable::new();
    let ghost mut ids = Seq::<LinkId>::empty();
    let ghost jt = joint_name_to_id@;
    let mut k: usize = 0;
    assert(table@ =~= table_of(link_names(decls@.take(0)), ids));
    assert(sim.link_map().dom() =~= ids.to_set());
    assert(table_resolves(jt, sim.joint_map())) by {
        assert forall|i: int| 0 <= i < jt.len() implies sim.joint_map().contains_key(
            (#[trigger] jt[i]).1,
        ) by {
            assert(joint_ids.to_set().contains(joint_ids[i]));
        }
    }
    while k < decls.len()
        invariant
            k <= decls@.len(),
            ids.len() == k,
            jt == joint_name_to_id@,
            jt == table_of(names, joint_ids),
            table_resolves(jt, sim.joint_map()),
            handles_in_use(ids, sim.link_map().dom()),
            table@ == table_of(link_names(decls@.take(k as int)), ids),
            links_missing(names, decls@.take(k as int)) is None,
            forall|j: int|
                0 <= j < k ==> link_made(jt, &decls@[j], sim.link_map()[#[trigger] ids[j]]),
            sim.joint_map().dom() == old(sim).joint_map().dom(),
            forall|id: JointId| #[trigger]
                old(sim).joint_map().contains_key(id) ==> {
                    &&& sim.joint_map()[id].position == old(sim).joint_map()[id].position
                    &&& sim.joint_map()[id].joint_type == old(sim).joint_map()[id].joint_type
                    &&& sim.joint_map()[id].connected_links@ == incident(
                        decls@.take(k as int),
                        jt,
                        ids,
                        id,
                    )
                },
            sim.constraints == old(sim).constraints,
        decreases decls@.len() - k,
    {
        let decl = &decls[k];
        proof {
            lemma_lookup_declared(names, joint_ids, decl.joint_a@);
            lemma_lookup_declared(names, joint_ids, decl.joint_b@);
            assert(decls@.take(k + 1).drop_last() =~= decls@.take(k as int));
            assert(decls@.take(k + 1).last() == decls@[k as int]);
            if link_missing(names, decl) is Some {
                lemma_links_missing_found(names, decls@, k + 1);
            }
        }
        let a = joint_name_to_id.resolve(decl.joint_a.as_str(), Role::Joint)?;
        let b = joint_name_to_id.resolve(decl.joint_b.as_str(), Role::Joint)?;
        proof {
            lemma_lookup_resolves(jt, sim.joint_map(), decl.joint_a@);
            lemma_lookup_resolves(jt, sim.joint_map(), decl.joint_b@);
        }
        let mut ends: Vec<JointId> = Vec::new();
        ends.push(a);
        ends.push(b);
        assert(ends@ =~= seq![a, b]);
        let ghost links_before = sim.link_map();
        let ghost joints_before = sim.joint_map();
        let id = link_arena_insert(&mut sim.links, Link { joints: ends, rigid: true });
        attach(sim, a, id);
        let ghost joints_between = sim.joint_map();
        attach(sim, b, id);
        table.insert(decl.name.clone(), id);
        proof {
            let longer = ids.push(id);
            assert(!ids.contains(id)) by {
                if ids.contains(id) {
                    assert(ids.to_set().contains(id));
                }
            }
            assert(sim.link_map().dom() =~= longer.to_set()) by {
                assert forall|h: Handle| sim.link_map().dom().contains(h) == longer.to_set().contains(
                    h,
                ) by {
                    lemma_push_contains(ids, id, h);
                    assert(ids.to_set().contains(h) == ids.contains(h));
                    assert(longer.to_set().contains(h) == longer.contains(h));
                }
            }
            assert(table@ =~= table_of(link_names(decls@.take(k + 1)), longer));
            assert forall|j: int| 0 <= j < k + 1 implies link_made(
                jt,
                &decls@[j],
                sim.link_map()[#[trigger] longer[j]],
            ) by {
                if j < k {
                    assert(longer[j] == ids[j]);
                    assert(ids.to_set().contains(ids[j]));
                    assert(links_before.contains_key(ids[j]));
                }
            }
            assert forall|x: JointId| #[trigger]
                old(sim).joint_map().contains_key(x) implies sim.joint_map()[x].position == old(sim).joint_map()[x].position && sim.joint_map()[x].joint_type == old(sim).joint_map()[x].joint_type && sim.joint_map()[x].connected_links@ == incident(
                decls@.take(k + 1),
                jt,
                longer,
                x,
            ) by {
                assert(joints_before.contains_key(x));
                assert(joints_between.contains_key(x));
                lemma_incident_more_ids(decls@.take(k as int), jt, ids, longer, x);
                assert(longer[k as int] == id);
                if x != a {
                    assert(joints_between[x] == joints_before[x]);
                }
                if x != b {
                    assert(sim.joint_map()[x] == joints_between[x]);
                }
            }
            assert(table_resolves(jt, sim.joint_map())) by {
                assert forall|i: int| 0 <= i < jt.len() implies sim.joint_map().contains_key(
                    (#[trigger] jt[i]).1,
                ) by {
                    assert(joints_before.contains_key(jt[i].1));
                }
            }
            ids = longer;
        }
        k += 1;
    }
    assert(decls@.take(k as int) =~= decls@);
    Ok((table, Ghost(ids)))
}

/// The first of the names, in their order, that is not a declared joint.
pub open spec fn names_missing(declared: Seq<Seq<char>>, names: Seq<Seq<char>>) -> Option<
    (Role, Seq<char>),
>
    decreases names.len(),
{
    if names.len() == 0 {
        None
    } else {
        match names_missing(declared, names.drop_last()) {
            Some(missing) => Some(missing),
            None => if undeclared(declared, names.last()) {
                Some((Role::Joint, names.last()))
            } else {
                None
            },
        }
    }
}

/// The first name in the constraint, in the order in which its names are
/// looked up, that is not declared, with the role in which it is looked up.
pub open spec fn constraint_missing(
    joints: Seq<Seq<char>>,
    links: Seq<Seq<char>>,
    decl: &ConstraintDecl,
) -> Option<(Role, Seq<char>)> {
    match decl {
        ConstraintDecl::Distance { a, b, .. } => if undeclared(joints, a@) {
            Some((Role::Joint, a@))
        } else if undeclared(joints, b@) {
            Some((Role::Joint, b@))
        } else {
            None
        },
        ConstraintDecl::Fixed { joints: names } => names_missing(joints, names.deep_view()),
        ConstraintDecl::Plane { joints: names, .. } => names_missing(joints, names.deep_view()),
        ConstraintDecl::PrismaticVector { joints: names, .. } => names_missing(
            joints,
            names.deep_view(),
        ),
        ConstraintDecl::PrismaticLink { joints: names, link, .. } => if undeclared(links, link@) {
            Some((Role::Link, link@))
        } else {
            names_missing(joints, names.deep_view())
        },
        ConstraintDecl::FixedAngle { joint_a, pivot, joint_c, .. } => if undeclared(
            joints,
            joint_a@,
        ) {
            Some((Role::Joint, joint_a@))
        } else if undeclared(joints, joint_c@) {
            Some((Role::Joint, joint_c@))
        } else if undeclared(joints, pivot@) {
            Some((Role::PivotJoint, pivot@))
        } else {
            None
        },
        ConstraintDecl::Revolute { joint_a, joint_b, .. } => if undeclared(joints, joint_a@) {
            Some((Role::PivotJoint, joint_a@))
        } else if undeclared(joints, joint_b@) {
            Some((Role::MovingJoint, joint_b@))
        } else {
            None
        },
    }
}

/// The first name in the constraints, in their order, that is not declared.
pub open spec fn constraints_missing(
    joints: Seq<Seq<char>>,
    links: Seq<Seq<char>>,
    decls: Seq<ConstraintDecl>,
) -> Option<(Role, Seq<char>)>
    decreases decls.len(),
{
    if decls.len() == 0 {
        None
    } else {
        match constraints_missing(joints, links, decls.drop_last()) {
            Some(missing) => Some(missing),
            None => constraint_missing(joints, links, &decls.last()),
        }
    }
}

/// The first name that the program uses without declaring it: in the links,
/// then in the constraints.
pub open spec fn program_missing(program: &Program) -> Option<(Role, Seq<char>)> {
    match links_missing(joint_names(program.joints@), program.links@) {
        Some(missing) => Some(missing),
        None => constraints_missing(
            joint_names(program.joints@),
            link_names(program.links@),
            program.constraints@,
        ),
    }
}

/// The names of joints that a constraint uses, in no particular order.
pub open spec fn joints_used(decl: &ConstraintDecl) -> Seq<Seq<char>> {
    match decl {
        ConstraintDecl::Distance { a, b, .. } => seq![a@, b@],
        ConstraintDecl::Fixed { joints } => joints.deep_view(),
        ConstraintDecl::Plane { joints, .. } => joints.deep_view(),
        ConstraintDecl::PrismaticVector { joints, .. } => joints.deep_view(),
        ConstraintDecl::PrismaticLink { joints, .. } => joints.deep_view(),
        ConstraintDecl::FixedAngle { joint_a, pivot, joint_c, .. } => seq![
            joint_a@,
            joint_c@,
            pivot@,
        ],
        ConstraintDecl::Revolute { joint_a, joint_b, .. } => seq![joint_a@, joint_b@],
    }
}

/// Every name that the constraint uses is declared.
pub open spec fn constraint_declared(
    joints: Seq<Seq<char>>,
    links: Seq<Seq<char>>,
    decl: &ConstraintDecl,
) -> bool {
    &&& forall|i: int|
        0 <= i < joints_used(decl).len() ==> !undeclared(joints, #[trigger] joints_used(decl)[i])
    &&& match decl {
        ConstraintDecl::PrismaticLink { link, .. } => !undeclared(links, link@),
        _ => true,
    }
}

/// Every name that the program uses, in a link or in a constraint, is declared.
pub open spec fn all_names_declared(program: &Program) -> bool {
    let joints = joint_names(program.joints@);
    let links = link_names(program.links@);
    &&& forall|k: int|
        0 <= k < program.links@.len() ==> !undeclared(
            joints,
            (#[trigger] program.links@[k]).joint_a@,
        ) && !undeclared(joints, program.links@[k].joint_b@)
    &&& forall|k: int|
        0 <= k < program.constraints@.len() ==> constraint_declared(
            joints,
            links,
            &#[trigger] program.constraints@[k],
        )
}

/// The name that is reported missing is used in a role in which it is not
/// declared.
pub open spec fn is_undeclared(
    joints: Seq<Seq<char>>,
    links: Seq<Seq<char>>,
    missing: (Role, Seq<char>),
) -> bool {
    if missing.0 == Role::Link {
        undeclared(links, missing.1)
    } else {
        undeclared(joints, missing.1)
    }
}

/// No name is missing from a list exactly if all its names are declared, and
/// a name that is missing is not declared.
pub proof fn lemma_names_missing(declared: Seq<Seq<char>>, names: Seq<Seq<char>>)
    ensures
        names_missing(declared, names) is None <==> forall|i: int|
            0 <= i < names.len() ==> !undeclared(declared, #[trigger] names[i]),
        names_missing(declared, names) is Some ==> names_missing(declared, names).unwrap().0
            == Role::Joint && undeclared(declared, names_missing(declared, names).unwrap().1),
    decreases names.len(),
{
    if names.len() > 0 {
        let front = names.drop_last();
        lemma_names_missing(declared, front);
        if names_missing(declared, front) is None && !undeclared(declared, names.last()) {
            assert forall|i: int| 0 <= i < names.len() implies !undeclared(
                declared,
                #[trigger] names[i],
            ) by {
                if i < names.len() - 1 {
                    assert(front[i] == names[i]);
                }
            }
        }
        if names_missing(declared, front) is Some {
            let i = choose|i: int| 0 <= i < front.len() && undeclared(declared, #[trigger] front[i]);
            assert(front[i] == names[i]);
        }
        if undeclared(declared, names.last()) {
            assert(names[names.len() - 1] == names.last());
        }
    }
}

/// No name is missing from a constraint exactly if all the names it uses are
/// declared, and a name that is missing is not declared.
pub proof fn lemma_constraint_missing(
    joints: Seq<Seq<char>>,
    links: Seq<Seq<char>>,
    decl: &ConstraintDecl,
)
    ensures
        constraint_missing(joints, links, decl) is None <==> constraint_declared(
            joints,
            links,
            decl,
        ),
        constraint_missing(joints, links, decl) is Some ==> is_undeclared(
            joints,
            links,
            constraint_missing(joints, links, decl).unwrap(),
        ),
{
    let used = joints_used(decl);
    match decl {
        ConstraintDecl::Distance { a, b, .. } => {
            assert(used[0] == a@ && used[1] == b@);
        },
        ConstraintDecl::Fixed { joints: names } => {
            lemma_names_missing(joints, names.deep_view());
        },
        ConstraintDecl::Plane { joints: names, .. } => {
            lemma_names_missing(joints, names.deep_view());
        },
        ConstraintDecl::PrismaticVector { joints: names, .. } => {
            lemma_names_missing(joints, names.deep_view());
        },
        ConstraintDecl::PrismaticLink { joints: names, .. } => {
            lemma_names_missing(joints, names.deep_view());
        },
        ConstraintDecl::FixedAngle { joint_a, pivot, joint_c, .. } => {
            assert(used[0] == joint_a@ && used[1] == joint_c@ && used[2] == pivot@);
        },
        ConstraintDecl::Revolute { joint_a, joint_b, .. } => {
            assert(used[0] == joint_a@ && used[1] == joint_b@);
        },
    }
}

proof fn lemma_links_missing(joints: Seq<Seq<char>>, links: Seq<LinkDecl>)
    ensures
        links_missing(joints, links) is None <==> forall|k: int|
            0 <= k < links.len() ==> !undeclared(joints, (#[trigger] links[k]).joint_a@)
                && !undeclared(joints, links[k].joint_b@),
        links_missing(joints, links) is Some ==> links_missing(joints, links).unwrap().0
            == Role::Joint && undeclared(joints, links_missing(joints, links).unwrap().1),
    decreases links.len(),
{
    if links.len() > 0 {
        let front = links.drop_last();
        lemma_links_missing(joints, front);
        if links_missing(joints, front) is None && link_missing(joints, &links.last()) is None {
            assert forall|k: int| 0 <= k < links.len() implies !undeclared(
                joints,
                (#[trigger] links[k]).joint_a@,
            ) && !undeclared(joints, links[k].joint_b@) by {
                if k < links.len() - 1 {
                    assert(front[k] == links[k]);
                }
            }
        }
        if links_missing(joints, front) is Some {
            let k = choose|k: int|
                0 <= k < front.len() && !(!undeclared(joints, (#[trigger] front[k]).joint_a@)
                    && !undeclared(joints, front[k].joint_b@));
            assert(front[k] == links[k]);
        }
        if link_missing(joints, &links.last()) is Some {
            assert(links[links.len() - 1] == links.last());
        }
    }
}

proof fn lemma_constraints_missing(
    joints: Seq<Seq<char>>,
    links: Seq<Seq<char>>,
    decls: Seq<ConstraintDecl>,
)
    ensures
        constraints_missing(joints, links, decls) is None <==> forall|k: int|
            0 <= k < decls.len() ==> constraint_declared(joints, links, &#[trigger] decls[k]),
        constraints_missing(joints, links, decls) is Some ==> is_undeclared(
            joints,
            links,
            constraints_missing(joints, links, decls).unwrap(),
        ),
    decreases decls.len(),
{
    if decls.len() > 0 {
        let front = decls.drop_last();
        lemma_constraints_missing(joints, links, front);
        lemma_constraint_missing(joints, links, &decls.last());
        if constraints_missing(joints, links, front) is None && constraint_missing(
            joints,
            links,
            &decls.last(),
        ) is None {
            assert forall|k: int| 0 <= k < decls.len() implies constraint_declared(
                joints,
                links,
                &#[trigger] decls[k],
            ) by {
                if k < decls.len() - 1 {
                    assert(front[k] == decls[k]);
                }
            }
        }
        if constraints_missing(joints, links, front) is Some {
            let k = choose|k: int|
                0 <= k < front.len() && !constraint_declared(joints, links, &#[trigger] front[k]);
            assert(front[k] == decls[k]);
        }
        if constraint_missing(joints, links, &decls.last()) is Some {
            assert(decls[decls.len() - 1] == decls.last());
        }
    }
}

/// A name is reported missing exactly if the program uses a name that it
/// does not declare, and the name reported is one that is not declared in
/// the role in which it is used.
pub proof fn lemma_program_missing(program: &Program)
    ensures
        program_missing(program) is None <==> all_names_declared(program),
        program_missing(program) is Some ==> is_undeclared(
            joint_names(program.joints@),
            link_names(program.links@),
            program_missing(program).unwrap(),
        ),
{
    lemma_links_missing(joint_names(program.joints@), program.links@);
    lemma_constraints_missing(
        joint_names(program.joints@),
        link_names(program.links@),
        program.constraints@,
    );
}

/// A name that is missing from the first constraints is missing from all.
pub proof fn lemma_constraints_missing_found(
    joints: Seq<Seq<char>>,
    links: Seq<Seq<char>>,
    decls: Seq<ConstraintDecl>,
    upto: int,
)
    requires
        0 <= upto <= decls.len(),
        constraints_missing(joints, links, decls.take(upto)) is Some,
    ensures
        constraints_missing(joints, links, decls) == constraints_missing(
            joints,
            links,
            decls.take(upto),
        ),
    decreases decls.len() - upto,
{
    if upto < decls.len() {
        assert(decls.take(upto + 1).drop_last() =~= decls.take(upto));
        lemma_constraints_missing_found(joints, links, decls, upto + 1);
    } else {
        assert(decls.take(upto) =~= decls);
    }
}

/// Names that are all found in the table are all declared.
pub proof fn lemma_names_all_declared(
    declared: Seq<Seq<char>>,
    ids: Seq<Handle>,
    names: Seq<Seq<char>>,
)
    requires
        all_declared(table_of(declared, ids), names),
    ensures
        names_missing(declared, names) is None,
    decreases names.len(),
{
    if names.len() > 0 {
        assert forall|i: int| 0 <= i < names.drop_last().len() implies lookup(
            table_of(declared, ids),
            #[trigger] names.drop_last()[i],
        ) is Some by {
            assert(names.drop_last()[i] == names[i]);
        }
        lemma_names_all_declared(declared, ids, names.drop_last());
        assert(names.last() == names[names.len() - 1]);
        lemma_lookup_declared(declared, ids, names.last());
    }
}

/// The first name that is not found in the table is the first that is not
/// declared.
pub proof fn lemma_names_first_undeclared(
    declared: Seq<Seq<char>>,
    ids: Seq<Handle>,
    names: Seq<Seq<char>>,
    i: int,
)
    requires
        first_undeclared(table_of(declared, ids), names, i),
    ensures
        names_missing(declared, names) == Some((Role::Joint, names[i])),
    decreases names.len(),
{
    let last = names.len() - 1;
    if i == last {
        assert(names.drop_last() =~= names.take(i));
        lemma_names_all_declared(declared, ids, names.drop_last());
        lemma_lookup_declared(declared, ids, names.last());
    } else {
        assert(names.drop_last().take(i) =~= names.take(i));
        assert(names.drop_last()[i] == names[i]);
        lemma_names_first_undeclared(declared, ids, names.drop_last(), i);
    }
}

/// The point of a plane: the one that was written, or the origin.
pub open spec fn point_or_origin(point: Option<Vec3>) -> Vec3 {
    match point {
        Some(p) => p,
        None => Vec3::spec_zero(),
    }
}

/// `n` and `p` are the normal and the point of a plane as they were written.
pub open spec fn plane_values<N: Fn(&str) -> Scalar>(
    number: &N,
    normal: &Axis,
    point: &Option<VectorLiteral>,
    n: Vec3,
    p: Option<Vec3>,
) -> bool {
    axis_value(number, normal, n) && point_value(number, point, p)
}

/// `a` and `o` are the axis and the origin of a line as they were written.
pub open spec fn line_values<N: Fn(&str) -> Scalar>(
    number: &N,
    axis: &Axis,
    origin: &VectorLiteral,
    a: Vec3,
    o: Vec3,
) -> bool {
    axis_value(number, axis, a) && vector_value(number, origin, o)
}

/// `rest`, `min` and `max` are the rest direction and the bounds of a
/// revolute constraint as they were written.
pub open spec fn revolute_values<N: Fn(&str) -> Scalar>(
    number: &N,
    axis: &Axis,
    min_angle: &Literal,
    max_angle: &Literal,
    rest: Vec3,
    min: Scalar,
    max: Scalar,
) -> bool {
    &&& axis_value(number, axis, rest)
    &&& evaluates(number, min_angle.text@, min)
    &&& evaluates(number, max_angle.text@, max)
}

/// `out` are the constraints that a declaration gives, in their order. All
/// its names must be declared.
pub open spec fn lowers<N: Fn(&str) -> Scalar, R: Fn(Scalar) -> Scalar, U: Fn(Vec3) -> Vec3>(
    decl: &ConstraintDecl,
    joint_table: Seq<(Seq<char>, Handle)>,
    link_table: Seq<(Seq<char>, Handle)>,
    joints: Map<JointId, Joint>,
    number: &N,
    to_radians: &R,
    normalize: &U,
    out: Seq<Constraint>,
) -> bool {
    match decl {
        ConstraintDecl::Distance { a, b, value } => exists|v: Scalar| #[trigger]
            evaluates(number, value.text@, v) && out == seq![
                distance_constraint(
                    lookup(joint_table, a@).unwrap(),
                    lookup(joint_table, b@).unwrap(),
                    v,
                ),
            ],
        ConstraintDecl::Fixed { joints: names } => out == fixed_constraints(
            joints,
            handles_of(joint_table, names.deep_view()),
        ),
        ConstraintDecl::Plane { joints: names, normal, point } => exists|n: Vec3, p: Option<Vec3>| #[trigger]
            plane_values(number, normal, point, n, p) && out == plane_constraints(
                handles_of(joint_table, names.deep_view()),
                n,
                point_or_origin(p),
            ),
        ConstraintDecl::PrismaticVector { joints: names, axis, origin } => exists|
            a: Vec3,
            o: Vec3,
        | #[trigger]
            line_values(number, axis, origin, a, o) && prismatic_vector_constraints(
                handles_of(joint_table, names.deep_view()),
                a,
                o,
                normalize,
                out,
            ),
        ConstraintDecl::PrismaticLink { joints: names, link, origin } => exists|o: Vec3| #[trigger]
            vector_value(number, origin, o) && out == prismatic_link_constraints(
                handles_of(joint_table, names.deep_view()),
                lookup(link_table, link@).unwrap(),
                o,
            ),
        ConstraintDecl::FixedAngle { joint_a, pivot, joint_c, angle, unit } => exists|t: Scalar| #[trigger]
            angle_value(number, to_radians, angle, *unit, t) && out == seq![
                fixed_angle_constraint(
                    lookup(joint_table, joint_a@).unwrap(),
                    lookup(joint_table, joint_c@).unwrap(),
                    lookup(joint_table, pivot@).unwrap(),
                    t,
                ),
            ],
        ConstraintDecl::Revolute { joint_a, joint_b, axis, min_angle, max_angle } => exists|
            rest: Vec3,
            min: Scalar,
            max: Scalar,
        | #[trigger]
            revolute_values(number, axis, min_angle, max_angle, rest, min, max) && out == seq![
                revolute_constraint(
                    lookup(joint_table, joint_a@).unwrap(),
                    lookup(joint_table, joint_b@).unwrap(),
                    rest,
                    min,
                    max,
                ),
            ],
    }
}

/// Every one of the constraints resolves.
pub open spec fn all_resolve(
    constraints: Seq<Constraint>,
    joints: Map<JointId, Joint>,
    links: Map<LinkId, Link>,
) -> bool {
    forall|i: int| 0 <= i < constraints.len() ==> (#[trigger] constraints[i]).resolves(joints, links)
}

/// The handles of declared names resolve.
proof fn lemma_handles_resolve(
    entries: Seq<(Seq<char>, Handle)>,
    joints: Map<JointId, Joint>,
    names: Seq<Seq<char>>,
)
    requires
        table_resolves(entries, joints),
        all_declared(entries, names),
    ensures
        forall|i: int|
            0 <= i < names.len() ==> joints.contains_key(#[trigger] handles_of(entries, names)[i]),
{
    assert forall|i: int| 0 <= i < names.len() implies joints.contains_key(
        #[trigger] handles_of(entries, names)[i],
    ) by {
        assert(lookup(entries, names[i]) is Some);
        lemma_lookup_resolves(entries, joints, names[i]);
    }
}

/// Every handle in the table resolves to a link.
pub open spec fn link_table_resolves(entries: Seq<(Seq<char>, Handle)>, links: Map<LinkId, Link>) -> bool {
    forall|i: int| 0 <= i < entries.len() ==> links.contains_key((#[trigger] entries[i]).1)
}

/// Adds the constraints that one declaration gives.
fn lower_constraint<N: Fn(&str) -> Scalar, R: Fn(Scalar) -> Scalar, U: Fn(Vec3) -> Vec3>(
    sim: &mut Simulation,
    decl: &ConstraintDecl,
    joint_name_to_id: &NameTable,
    link_name_to_id: &NameTable,
    number: &N,
    to_radians: &R,
    normalize: &U,
    Ghost(joints): Ghost<Seq<Seq<char>>>,
    Ghost(joint_ids): Ghost<Seq<JointId>>,
    Ghost(links): Ghost<Seq<Seq<char>>>,
    Ghost(link_ids): Ghost<Seq<LinkId>>,
) -> (r: Result<(), CompileError>)
    requires
        forall|s: &str| number.requires((s,)),
        forall|d: Scalar| to_radians.requires((d,)),
        forall|v: Vec3| normalize.requires((v,)),
        joint_name_to_id@ == table_of(joints, joint_ids),
        link_name_to_id@ == table_of(links, link_ids),
        table_resolves(joint_name_to_id@, old(sim).joint_map()),
        link_table_resolves(link_name_to_id@, old(sim).link_map()),
    ensures
        match r {
            Ok(_) => constraint_missing(joints, links, decl) is None && exists|
                added: Seq<Constraint>,
            | #[trigger]
                lowers(
                    decl,
                    joint_name_to_id@,
                    link_name_to_id@,
                    old(sim).joint_map(),
                    number,
                    to_radians,
                    normalize,
                    added,
                ) && final(sim).constraints@ == old(sim).constraints@ + added && all_resolve(
                    added,
                    old(sim).joint_map(),
                    old(sim).link_map(),
                ),
            Err(e) => constraint_missing(joints, links, decl) is Some && constraint_missing(
                joints,
                links,
                decl,
            ) == e.missing(),
        },
        final(sim).joint_map() == old(sim).joint_map(),
        final(sim).link_map() == old(sim).link_map(),
{
    let ghost jt = joint_name_to_id@;
    let ghost lt = link_name_to_id@;
    let ghost before = sim.constraints@;
    let ghost joint_map = sim.joint_map();
    let ghost link_map = sim.link_map();
    match decl {
        ConstraintDecl::Distance { a, b, value } => {
            let v = evaluate(number, value);
            proof {
                lemma_lookup_declared(joints, joint_ids, a@);
                lemma_lookup_declared(joints, joint_ids, b@);
            }
            let r = apply_distance(sim, joint_name_to_id, a.as_str(), b.as_str(), v);
            proof {
                if r is Ok {
                    lemma_lookup_resolves(jt, joint_map, a@);
                    lemma_lookup_resolves(jt, joint_map, b@);
                    let added = seq![
                        distance_constraint(lookup(jt, a@).unwrap(), lookup(jt, b@).unwrap(), v),
                    ];
                    assert(sim.constraints@ =~= before + added);
                    assert(lowers(decl, jt, lt, joint_map, number, to_radians, normalize, added));
                    assert(all_resolve(added, joint_map, link_map));
                }
            }
            r
        },
        ConstraintDecl::Fixed { joints: names } => {
            let r = apply_fixed(sim, joint_name_to_id, names.as_slice());
            proof {
                let done = choose|done: int|
                    #![trigger names.deep_view().take(done)]
                    each_bound(jt, names.deep_view(), r, done) && sim.constraints@ == before
                        + fixed_constraints(joint_map, handles_of(jt, names.deep_view().take(done)));
                if r is Ok {
                    assert(names.deep_view().take(done) =~= names.deep_view());
                    lemma_names_all_declared(joints, joint_ids, names.deep_view());
                    lemma_handles_resolve(jt, joint_map, names.deep_view());
                    let added = fixed_constraints(joint_map, handles_of(jt, names.deep_view()));
                    assert(lowers(decl, jt, lt, joint_map, number, to_radians, normalize, added));
                    assert(all_resolve(added, joint_map, link_map));
                } else {
                    lemma_names_first_undeclared(joints, joint_ids, names.deep_view(), done);
                }
            }
            r
        },
        ConstraintDecl::Plane { joints: names, normal, point } => {
            let n = evaluate_axis(number, normal);
            let p = evaluate_point(number, point);
            let r = apply_plane(sim, joint_name_to_id, names.as_slice(), n, p);
            proof {
                let done = choose|done: int|
                    #![trigger names.deep_view().take(done)]
                    each_bound(jt, names.deep_view(), r, done) && sim.constraints@ == before
                        + plane_constraints(
                        handles_of(jt, names.deep_view().take(done)),
                        n,
                        point_or_origin(p),
                    );
                if r is Ok {
                    assert(names.deep_view().take(done) =~= names.deep_view());
                    lemma_names_all_declared(joints, joint_ids, names.deep_view());
                    lemma_handles_resolve(jt, joint_map, names.deep_view());
                    let added = plane_constraints(
                        handles_of(jt, names.deep_view()),
                        n,
                        point_or_origin(p),
                    );
                    assert(plane_values(number, normal, point, n, p));
                    assert(lowers(decl, jt, lt, joint_map, number, to_radians, normalize, added));
                    assert(all_resolve(added, joint_map, link_map));
                } else {
                    lemma_names_first_undeclared(joints, joint_ids, names.deep_view(), done);
                }
            }
            r
        },
        ConstraintDecl::PrismaticVector { joints: names, axis, origin } => {
            let a = evaluate_axis(number, axis);
            let o = evaluate_vector(number, origin);
            let r = apply_prismatic_vector(
                sim,
                joint_name_to_id,
                names.as_slice(),
                a,
                o,
                normalize,
            );
            proof {
                let (done, added) = choose|done: int, added: Seq<Constraint>|
                    #![trigger names.deep_view().take(done), before + added]
                    each_bound(jt, names.deep_view(), r, done) && sim.constraints@ == before
                        + added && prismatic_vector_constraints(
                        handles_of(jt, names.deep_view().take(done)),
                        a,
                        o,
                        normalize,
                        added,
                    );
                if r is Ok {
                    assert(names.deep_view().take(done) =~= names.deep_view());
                    lemma_names_all_declared(joints, joint_ids, names.deep_view());
                    lemma_handles_resolve(jt, joint_map, names.deep_view());
                    assert(line_values(number, axis, origin, a, o));
                    assert(lowers(decl, jt, lt, joint_map, number, to_radians, normalize, added));
                    assert(all_resolve(added, joint_map, link_map));
                } else {
                    lemma_names_first_undeclared(joints, joint_ids, names.deep_view(), done);
                }
            }
            r
        },
        ConstraintDecl::PrismaticLink { joints: names, link, origin } => {
            let o = evaluate_vector(number, origin);
            proof {
                lemma_lookup_declared(links, link_ids, link@);
            }
            let r = apply_prismatic_link(
                sim,
                joint_name_to_id,
                link_name_to_id,
                names.as_slice(),
                link.as_str(),
                o,
            );
            proof {
                if lookup(lt, link@) is Some {
                    let l = lookup(lt, link@).unwrap();
                    let done = choose|done: int|
                        #![trigger names.deep_view().take(done)]
                        each_bound(jt, names.deep_view(), r, done) && sim.constraints@ == before
                            + prismatic_link_constraints(
                            handles_of(jt, names.deep_view().take(done)),
                            l,
                            o,
                        );
                    if r is Ok {
                        assert(names.deep_view().take(done) =~= names.deep_view());
                        lemma_names_all_declared(joints, joint_ids, names.deep_view());
                        lemma_handles_resolve(jt, joint_map, names.deep_view());
                        lemma_lookup(lt, link@);
                        let added = prismatic_link_constraints(
                            handles_of(jt, names.deep_view()),
                            l,
                            o,
                        );
                        assert(lowers(
                            decl,
                            jt,
                            lt,
                            joint_map,
                            number,
                            to_radians,
                            normalize,
                            added,
                        ));
                        assert(all_resolve(added, joint_map, link_map));
                    } else {
                        lemma_names_first_undeclared(joints, joint_ids, names.deep_view(), done);
                    }
                }
            }
            r
        },
        ConstraintDecl::FixedAngle { joint_a, pivot, joint_c, angle, unit } => {
            let t = evaluate_angle(number, to_radians, angle, *unit);
            proof {
                lemma_lookup_declared(joints, joint_ids, joint_a@);
                lemma_lookup_declared(joints, joint_ids, joint_c@);
                lemma_lookup_declared(joints, joint_ids, pivot@);
            }
            let r = apply_fixed_angle(
                sim,
                joint_name_to_id,
                joint_a.as_str(),
                pivot.as_str(),
                joint_c.as_str(),
                t,
            );
            proof {
                if r is Ok {
                    lemma_lookup_resolves(jt, joint_map, joint_a@);
                    lemma_lookup_resolves(jt, joint_map, joint_c@);
                    lemma_lookup_resolves(jt, joint_map, pivot@);
                    let added = seq![
                        fixed_angle_constraint(
                            lookup(jt, joint_a@).unwrap(),
                            lookup(jt, joint_c@).unwrap(),
                            lookup(jt, pivot@).unwrap(),
                            t,
                        ),
                    ];
                    assert(sim.constraints@ =~= before + added);
                    assert(lowers(decl, jt, lt, joint_map, number, to_radians, normalize, added));
                    assert(all_resolve(added, joint_map, link_map));
                }
            }
            r
        },
        ConstraintDecl::Revolute { joint_a, joint_b, axis, min_angle, max_angle } => {
            let rest = evaluate_axis(number, axis);
            let min = evaluate(number, min_angle);
            let max = evaluate(number, max_angle);
            proof {
                lemma_lookup_declared(joints, joint_ids, joint_a@);
                lemma_lookup_declared(joints, joint_ids, joint_b@);
            }
            let r = apply_revolute(
                sim,
                joint_name_to_id,
                joint_a.as_str(),
                joint_b.as_str(),
                rest,
                min,
                max,
            );
            proof {
                if r is Ok {
                    lemma_lookup_resolves(jt, joint_map, joint_a@);
                    lemma_lookup_resolves(jt, joint_map, joint_b@);
                    let added = seq![
                        revolute_constraint(
                            lookup(jt, joint_a@).unwrap(),
                            lookup(jt, joint_b@).unwrap(),
                            rest,
                            min,
                            max,
                        ),
                    ];
                    assert(sim.constraints@ =~= before + added);
                    assert(revolute_values(number, axis, min_angle, max_angle, rest, min, max));
                    assert(lowers(decl, jt, lt, joint_map, number, to_radians, normalize, added));
                    assert(all_resolve(added, joint_map, link_map));
                }
            }
            r
        },
    }
}

/// In `constraints`, the part between the cuts `k` and `k + 1` is what the
/// declaration `k` gives.
pub open spec fn lowered_at<N: Fn(&str) -> Scalar, R: Fn(Scalar) -> Scalar, U: Fn(Vec3) -> Vec3>(
    decls: Seq<ConstraintDecl>,
    joint_table: Seq<(Seq<char>, Handle)>,
    link_table: Seq<(Seq<char>, Handle)>,
    joints: Map<JointId, Joint>,
    number: &N,
    to_radians: &R,
    normalize: &U,
    constraints: Seq<Constraint>,
    cuts: Seq<int>,
    k: int,
) -> bool {
    &&& 0 <= cuts[k] <= cuts[k + 1] <= constraints.len()
    &&& lowers(
        &decls[k],
        joint_table,
        link_table,
        joints,
        number,
        to_radians,
        normalize,
        constraints.subrange(cuts[k], cuts[k + 1]),
    )
}

/// `cuts` divide `constraints` into one part for each declaration, in order,
/// and each part is what its declaration gives.
pub open spec fn cut_along<N: Fn(&str) -> Scalar, R: Fn(Scalar) -> Scalar, U: Fn(Vec3) -> Vec3>(
    decls: Seq<ConstraintDecl>,
    joint_table: Seq<(Seq<char>, Handle)>,
    link_table: Seq<(Seq<char>, Handle)>,
    joints: Map<JointId, Joint>,
    number: &N,
    to_radians: &R,
    normalize: &U,
    constraints: Seq<Constraint>,
    cuts: Seq<int>,
) -> bool {
    &&& cuts.len() == decls.len() + 1
    &&& cuts[0] == 0
    &&& cuts.last() == constraints.len()
    &&& forall|k: int|
        0 <= k < decls.len() ==> #[trigger] lowered_at(
            decls,
            joint_table,
            link_table,
            joints,
            number,
            to_radians,
            normalize,
            constraints,
            cuts,
            k,
        )
}

/// `constraints` are what the declarations give, one after the other.
pub open spec fn constraints_compiled<
    N: Fn(&str) -> Scalar,
    R: Fn(Scalar) -> Scalar,
    U: Fn(Vec3) -> Vec3,
>(
    decls: Seq<ConstraintDecl>,
    joint_table: Seq<(Seq<char>, Handle)>,
    link_table: Seq<(Seq<char>, Handle)>,
    joints: Map<JointId, Joint>,
    number: &N,
    to_radians: &R,
    normalize: &U,
    constraints: Seq<Constraint>,
) -> bool {
    exists|cuts: Seq<int>| #[trigger]
        cut_along(
            decls,
            joint_table,
            link_table,
            joints,
            number,
            to_radians,
            normalize,
            constraints,
            cuts,
        )
}

/// Adds the constraints of all declarations, in order.
fn declare_constraints<N: Fn(&str) -> Scalar, R: Fn(Scalar) -> Scalar, U: Fn(Vec3) -> Vec3>(
    sim: &mut Simulation,
    decls: &Vec<ConstraintDecl>,
    joint_name_to_id: &NameTable,
    link_name_to_id: &NameTable,
    number: &N,
    to_radians: &R,
    normalize: &U,
    Ghost(joints): Ghost<Seq<Seq<char>>>,
    Ghost(joint_ids): Ghost<Seq<JointId>>,
    Ghost(links): Ghost<Seq<Seq<char>>>,
    Ghost(link_ids): Ghost<Seq<LinkId>>,
) -> (r: Result<(), CompileError>)
    requires
        forall|s: &str| number.requires((s,)),
        forall|d: Scalar| to_radians.requires((d,)),
        forall|v: Vec3| normalize.requires((v,)),
        joint_name_to_id@ == table_of(joints, joint_ids),
        link_name_to_id@ == table_of(links, link_ids),
        table_resolves(joint_name_to_id@, old(sim).joint_map()),
        link_table_resolves(link_name_to_id@, old(sim).link_map()),
        old(sim).constraints@.len() == 0,
    ensures
        match r {
            Ok(_) => constraints_missing(joints, links, decls@) is None && constraints_compiled(
                decls@,
                joint_name_to_id@,
                link_name_to_id@,
                old(sim).joint_map(),
                number,
                to_radians,
                normalize,
                final(sim).constraints@,
            ) && all_resolve(final(sim).constraints@, old(sim).joint_map(), old(sim).link_map()),
            Err(e) => constraints_missing(joints, links, decls@) is Some && constraints_missing(
                joints,
                links,
                decls@,
            ) == e.missing(),
        },
        final(sim).joint_map() == old(sim).joint_map(),
        final(sim).link_map() == old(sim).link_map(),
{
    let ghost jt = joint_name_to_id@;
    let ghost lt = link_name_to_id@;
    let ghost joint_map = sim.joint_map();
    let ghost link_map = sim.link_map();
    let ghost mut cuts = seq![0int];
    let mut k: usize = 0;
    while k < decls.len()
        invariant
            forall|s: &str| number.requires((s,)),
            forall|d: Scalar| to_radians.requires((d,)),
            forall|v: Vec3| normalize.requires((v,)),
            jt == joint_name_to_id@,
            lt == link_name_to_id@,
            jt == table_of(joints, joint_ids),
            lt == table_of(links, link_ids),
            joint_map == old(sim).joint_map(),
            link_map == old(sim).link_map(),
            sim.joint_map() == joint_map,
            sim.link_map() == link_map,
            table_resolves(jt, joint_map),
            link_table_resolves(lt, link_map),
            k <= decls@.len(),
            cuts.len() == k + 1,
            cuts[0] == 0,
            cuts[k as int] == sim.constraints@.len(),
            constraints_missing(joints, links, decls@.take(k as int)) is None,
            all_resolve(sim.constraints@, joint_map, link_map),
            forall|j: int|
                0 <= j < k ==> #[trigger] lowered_at(
                    decls@,
                    jt,
                    lt,
                    joint_map,
                    number,
                    to_radians,
                    normalize,
                    sim.constraints@,
                    cuts,
                    j,
                ),
        decreases decls@.len() - k,
    {
        let ghost before = sim.constraints@;
        proof {
            assert(decls@.take(k + 1).drop_last() =~= decls@.take(k as int));
            assert(decls@.take(k + 1).last() == decls@[k as int]);
        }
        let r = lower_constraint(
            sim,
            &decls[k],
            joint_name_to_id,
            link_name_to_id,
            number,
            to_radians,
            normalize,
            Ghost(joints),
            Ghost(joint_ids),
            Ghost(links),
            Ghost(link_ids),
        );
        match r {
            Ok(_) => {},
            Err(e) => {
                proof {
                    lemma_constraints_missing_found(joints, links, decls@, k + 1);
                }
                return Err(e);
            },
        }
        proof {
            let added = choose|added: Seq<Constraint>| #[trigger]
                lowers(&decls@[k as int], jt, lt, joint_map, number, to_radians, normalize, added)
                    && sim.constraints@ == before + added && all_resolve(
                    added,
                    joint_map,
                    link_map,
                );
            let longer = cuts.push(sim.constraints@.len() as int);
            assert(sim.constraints@.subrange(before.len() as int, sim.constraints@.len() as int)
                =~= added);
            assert forall|j: int| 0 <= j < k + 1 implies #[trigger] lowered_at(
                decls@,
                jt,
                lt,
                joint_map,
                number,
                to_radians,
                normalize,
                sim.constraints@,
                longer,
                j,
            ) by {
                if j < k {
                    assert(lowered_at(
                        decls@,
                        jt,
                        lt,
                        joint_map,
                        number,
                        to_radians,
                        normalize,
                        before,
                        cuts,
                        j,
                    ));
                    assert(sim.constraints@.subrange(longer[j], longer[j + 1]) =~= before.subrange(
                        cuts[j],
                        cuts[j + 1],
                    ));
                }
            }
            assert forall|i: int| 0 <= i < sim.constraints@.len() implies (
            #[trigger] sim.constraints@[i]).resolves(joint_map, link_map) by {
                if i < before.len() {
                    assert(before[i].resolves(joint_map, link_map));
                } else {
                    assert(added[i - before.len()].resolves(joint_map, link_map));
                }
            }
            cuts = longer;
        }
        k += 1;
    }
    proof {
        assert(decls@.take(k as int) =~= decls@);
        assert(cut_along(
            decls@,
            jt,
            lt,
            joint_map,
            number,
            to_radians,
            normalize,
            sim.constraints@,
            cuts,
        ));
    }
    Ok(())
}

/// With these handles for the joints and the links, in the order of their
/// declarations, the mechanism is what the program describes.
pub open spec fn compiled_with<N: Fn(&str) -> Scalar, R: Fn(Scalar) -> Scalar, U: Fn(Vec3) -> Vec3>(
    program: &Program,
    number: &N,
    to_radians: &R,
    normalize: &U,
    joint_ids: Seq<JointId>,
    link_ids: Seq<LinkId>,
    joints: Map<JointId, Joint>,
    links: Map<LinkId, Link>,
    constraints: Seq<Constraint>,
) -> bool {
    let joint_table = table_of(joint_names(program.joints@), joint_ids);
    let link_table = table_of(link_names(program.links@), link_ids);
    &&& joint_ids.len() == program.joints@.len()
    &&& link_ids.len() == program.links@.len()
    &&& handles_in_use(joint_ids, joints.dom())
    &&& handles_in_use(link_ids, links.dom())
    &&& forall|i: int|
        0 <= i < joint_ids.len() ==> joint_made(
            number,
            &program.joints@[i],
            joints[#[trigger] joint_ids[i]],
            incident(program.links@, joint_table, link_ids, joint_ids[i]),
        )
    &&& forall|k: int|
        0 <= k < link_ids.len() ==> link_made(
            joint_table,
            &program.links@[k],
            links[#[trigger] link_ids[k]],
        )
    &&& constraints_compiled(
        program.constraints@,
        joint_table,
        link_table,
        joints,
        number,
        to_radians,
        normalize,
        constraints,
    )
}

/// The mechanism is what the program describes: one joint for each joint
/// declaration, where the declaration puts it and connected to the links
/// that name it; one rigid link for each link declaration, between the joints
/// it names; and the constraints that the constraint declarations give, in
/// their order.
pub open spec fn compiled<N: Fn(&str) -> Scalar, R: Fn(Scalar) -> Scalar, U: Fn(Vec3) -> Vec3>(
    program: &Program,
    number: &N,
    to_radians: &R,
    normalize: &U,
    joints: Map<JointId, Joint>,
    links: Map<LinkId, Link>,
    constraints: Seq<Constraint>,
) -> bool {
    exists|joint_ids: Seq<JointId>, link_ids: Seq<LinkId>| #[trigger]
        compiled_with(
            program,
            number,
            to_radians,
            normalize,
            joint_ids,
            link_ids,
            joints,
            links,
            constraints,
        )
}

/// A mechanism that is what a program describes has as many joints as the
/// program declares, and as many links.
pub proof fn lemma_compiled_counts<
    N: Fn(&str) -> Scalar,
    R: Fn(Scalar) -> Scalar,
    U: Fn(Vec3) -> Vec3,
>(
    program: &Program,
    number: &N,
    to_radians: &R,
    normalize: &U,
    joints: Map<JointId, Joint>,
    links: Map<LinkId, Link>,
    constraints: Seq<Constraint>,
)
    requires
        compiled(program, number, to_radians, normalize, joints, links, constraints),
    ensures
        joints.dom().finite(),
        joints.dom().len() == program.joints@.len(),
        links.dom().finite(),
        links.dom().len() == program.links@.len(),
{
    let (joint_ids, link_ids) = choose|joint_ids: Seq<JointId>, link_ids: Seq<LinkId>| #[trigger]
        compiled_with(
            program,
            number,
            to_radians,
            normalize,
            joint_ids,
            link_ids,
            joints,
            links,
            constraints,
        );
    joint_ids.unique_seq_to_set();
    link_ids.unique_seq_to_set();
    vstd::seq_lib::seq_to_set_is_finite(joint_ids);
    vstd::seq_lib::seq_to_set_is_finite(link_ids);
}

/// The compiler of syntax trees.
pub struct DslCompiler;

impl DslCompiler {
    /// Builds the mechanism that a program describes, or names the first name
    /// that the program uses without declaring it.
    ///
    /// `number` gives the value of a literal, `to_radians` converts an angle
    /// written in degrees, and `normalize` scales the axis of a line to unit
    /// length.
    pub fn compile_to_simulation<
        N: Fn(&str) -> Scalar,
        R: Fn(Scalar) -> Scalar,
        U: Fn(Vec3) -> Vec3,
    >(program: Program, number: &N, to_radians: &R, normalize: &U) -> (r: Result<
        Simulation,
        CompileError,
    >)
        requires
            forall|s: &str| number.requires((s,)),
            forall|d: Scalar| to_radians.requires((d,)),
            forall|v: Vec3| normalize.requires((v,)),
        ensures
            match r {
                Ok(sim) => {
                    &&& program_missing(&program) is None
                    &&& compiled(
                        &program,
                        number,
                        to_radians,
                        normalize,
                        sim.joint_map(),
                        sim.link_map(),
                        sim.constraints@,
                    )
                    &&& sim.joint_map().dom().finite()
                    &&& sim.joint_map().dom().len() == program.joints@.len()
                    &&& sim.link_map().dom().finite()
                    &&& sim.link_map().dom().len() == program.links@.len()
                    &&& sim.well_formed()
                },
                Err(e) => program_missing(&program) is Some && program_missing(&program)
                    == e.missing(),
            },
    {
        let mut sim = Simulation::new();
        let ghost joints = joint_names(program.joints@);
        let ghost links = link_names(program.links@);
        let (joint_name_to_id, Ghost(joint_ids)) = declare_joints(&mut sim, &program.joints, number);
        let ghost joints_declared = sim.joint_map();
        let (link_name_to_id, Ghost(link_ids)) = declare_links(
            &mut sim,
            &program.links,
            &joint_name_to_id,
            Ghost(joints),
            Ghost(joint_ids),
        )?;
        let ghost jt = joint_name_to_id@;
        let ghost lt = link_name_to_id@;
        proof {
            assert(table_resolves(jt, sim.joint_map())) by {
                assert forall|i: int| 0 <= i < jt.len() implies sim.joint_map().contains_key(
                    (#[trigger] jt[i]).1,
                ) by {
                    assert(joint_ids.to_set().contains(joint_ids[i]));
                }
            }
            assert(link_table_resolves(lt, sim.link_map())) by {
                assert forall|i: int| 0 <= i < lt.len() implies sim.link_map().contains_key(
                    (#[trigger] lt[i]).1,
                ) by {
                    assert(link_ids.to_set().contains(link_ids[i]));
                }
            }
        }
        declare_constraints(
            &mut sim,
            &program.constraints,
            &joint_name_to_id,
            &link_name_to_id,
            number,
            to_radians,
            normalize,
            Ghost(joints),
            Ghost(joint_ids),
            Ghost(links),
            Ghost(link_ids),
        )?;
        proof {
            let joint_map = sim.joint_map();
            let link_map = sim.link_map();
            assert forall|i: int| 0 <= i < joint_ids.len() implies joint_made(
                number,
                &program.joints@[i],
                joint_map[#[trigger] joint_ids[i]],
                incident(program.links@, jt, link_ids, joint_ids[i]),
            ) by {
                assert(joint_ids.to_set().contains(joint_ids[i]));
                assert(joints_declared.contains_key(joint_ids[i]));
                assert(joint_made(
                    number,
                    &program.joints@[i],
                    joints_declared[joint_ids[i]],
                    Seq::empty(),
                ));
            }
            assert(compiled_with(
                &program,
                number,
                to_radians,
                normalize,
                joint_ids,
                link_ids,
                joint_map,
                link_map,
                sim.constraints@,
            ));
            lemma_compiled_counts(
                &program,
                number,
                to_radians,
                normalize,
                joint_map,
                link_map,
                sim.constraints@,
            );
            assert(closed(joint_map, link_map, sim.constraints@)) by {
                assert forall|id: LinkId| #[trigger] link_map.contains_key(id) implies link_map[id].joints@.len()
                    == 2 && joint_map.contains_key(link_map[id].joints@[0])
                    && joint_map.contains_key(link_map[id].joints@[1]) by {
                    assert(link_ids.to_set().contains(id));
                    let k = choose|k: int| 0 <= k < link_ids.len() && link_ids[k] == id;
                    assert(link_made(jt, &program.links@[k], link_map[link_ids[k]]));
                    lemma_links_all_declared(joints, program.links@, k);
                    lemma_lookup_declared(joints, joint_ids, program.links@[k].joint_a@);
                    lemma_lookup_declared(joints, joint_ids, program.links@[k].joint_b@);
                    lemma_lookup_resolves(jt, joint_map, program.links@[k].joint_a@);
                    lemma_lookup_resolves(jt, joint_map, program.links@[k].joint_b@);
                }
                assert forall|id: JointId, n: int|
                    joint_map.contains_key(id) && 0 <= n
                        < joint_map[id].connected_links@.len() implies link_map.contains_key(
                    #[trigger] joint_map[id].connected_links@[n],
                ) by {
                    assert(joints_declared.contains_key(id));
                    let l = joint_map[id].connected_links@[n];
                    assert(incident(program.links@, jt, link_ids, id).contains(l));
                    lemma_incident_exact(program.links@, jt, link_ids, id, l);
                    let k = choose|k: int|
                        0 <= k < program.links@.len() && #[trigger] link_ids[k] == l && (lookup(
                            jt,
                            program.links@[k].joint_a@,
                        ) == Some(id) || lookup(jt, program.links@[k].joint_b@) == Some(id));
                    assert(link_ids.to_set().contains(link_ids[k]));
                }
            }
        }
        Ok(sim)
    }
}

/// Where no name is missing from the links, none is missing from any of them.
pub proof fn lemma_links_all_declared(joints: Seq<Seq<char>>, links: Seq<LinkDecl>, k: int)
    requires
        links_missing(joints, links) is None,
        0 <= k < links.len(),
    ensures
        link_missing(joints, &links[k]) is None,
    decreases links.len(),
{
    if k < links.len() - 1 {
        assert(links.drop_last()[k] == links[k]);
        lemma_links_all_declared(joints, links.drop_last(), k);
    }
}

/// What compiling a text gives: the error of the parser if the text is no
/// description; else, for the program that the text spells, the first name
/// used but not declared, or the mechanism that the program describes.
pub open spec fn compiles_to<N: Fn(&str) -> Scalar, R: Fn(Scalar) -> Scalar, U: Fn(Vec3) -> Vec3>(
    text: Seq<u8>,
    number: &N,
    to_radians: &R,
    normalize: &U,
    r: Result<Simulation, CompileError>,
) -> bool {
    match parsed(text) {
        Err(e) => r is Err && r.unwrap_err() == CompileError::Syntax(e),
        Ok(tree) => exists|program: Program| #[trigger]
            program.deep_view() == tree && match r {
                Ok(sim) => {
                    &&& program_missing(&program) is None
                    &&& compiled(
                        &program,
                        number,
                        to_radians,
                        normalize,
                        sim.joint_map(),
                        sim.link_map(),
                        sim.constraints@,
                    )
                    &&& sim.well_formed()
                },
                Err(e) => program_missing(&program) is Some && program_missing(&program)
                    == e.missing(),
            },
    }
}

/// Compiles a description from its text.
pub fn setup_sim_from_dsl<N: Fn(&str) -> Scalar, R: Fn(Scalar) -> Scalar, U: Fn(Vec3) -> Vec3>(
    dsl_code: &str,
    number: &N,
    to_radians: &R,
    normalize: &U,
) -> (r: Result<Simulation, CompileError>)
    requires
        forall|s: &str| number.requires((s,)),
        forall|d: Scalar| to_radians.requires((d,)),
        forall|v: Vec3| normalize.requires((v,)),
    ensures
        compiles_to(dsl_code.spec_bytes(), number, to_radians, normalize, r),
{
    let program = match UgokuParser::parse_dsl(dsl_code) {
        Ok(program) => program,
        Err(e) => {
            return Err(CompileError::Syntax(e));
        },
    };
    let ghost tree = program.deep_view();
    let ghost spelled = program;
    let r = DslCompiler::compile_to_simulation(program, number, to_radians, normalize);
    assert(spelled.deep_view() == tree);
    r
}

} // verus!
