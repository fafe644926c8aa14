//! Making constraints from names and numbers.
//!
//! Names are resolved against the tables that the compiler fills. Where a
//! name was declared more than once, its last declaration counts.

use crate::error::{CompileError, Role};
use crate::simcore::numeric::{Scalar, Vec3};
use crate::simcore::types::{
    Constraint, DistanceConstraint, FixedAngleConstraint, FixedPositionConstraint, Handle, Joint,
    JointId, LinkId, PlaneConstraint, PrismaticConstraintLink, PrismaticConstraintVector,
    RevoluteConstraint, Simulation,
};
use vstd::prelude::*;
use vstd::string::StringExecFns;

verus! {

/// The declared names of one kind, each with its handle, in the order of
/// declaration.
#[derive(Debug)]
pub struct NameTable {
    pub entries: Vec<(String, Handle)>,
}

/// The handle of a name: that of its last declaration.
pub open spec fn lookup(entries: Seq<(Seq<char>, Handle)>, name: Seq<char>) -> Option<Handle>
    decreases entries.len(),
{
    if entries.len() == 0 {
        None
    } else if entries.last().0 == name {
        Some(entries.last().1)
    } else {
        lookup(entries.drop_last(), name)
    }
}

/// A name is found exactly if it was declared, and then its handle is that
/// of one of its declarations: the last.
pub proof fn lemma_lookup(entries: Seq<(Seq<char>, Handle)>, name: Seq<char>)
    ensures
        lookup(entries, name) is Some <==> exists|i: int|
            0 <= i < entries.len() && (#[trigger] entries[i]).0 == name,
        lookup(entries, name) is Some ==> exists|i: int|
            0 <= i < entries.len() && #[trigger] entries[i] == (name, lookup(entries, name).unwrap())
                && forall|j: int| i < j < entries.len() ==> (#[trigger] entries[j]).0 != name,
    decreases entries.len(),
{
    if entries.len() > 0 {
        let last = entries.len() - 1;
        if entries.last().0 == name {
            assert(entries[last].0 == name);
            assert(entries[last] == (name, lookup(entries, name).unwrap()));
        } else {
            lemma_lookup(entries.drop_last(), name);
            if lookup(entries.drop_last(), name) is Some {
                let i = choose|i: int|
                    0 <= i < entries.drop_last().len() && #[trigger] entries.drop_last()[i] == (
                        name,
                        lookup(entries.drop_last(), name).unwrap(),
                    ) && forall|j: int|
                        i < j < entries.drop_last().len() ==> (#[trigger] entries.drop_last()[j]).0
                            != name;
                assert(entries[i] == entries.drop_last()[i]);
                assert forall|j: int| i < j < entries.len() implies (#[trigger] entries[j]).0
                    != name by {
                    if j < last {
                        assert(entries[j] == entries.drop_last()[j]);
                    }
                }
                assert(entries[i].0 == name);
            } else {
                assert forall|i: int| 0 <= i < entries.len() implies (#[trigger] entries[i]).0
                    != name by {
                    if i < last {
                        assert(entries[i] == entries.drop_last()[i]);
                    }
                }
            }
        }
    }
}

impl View for NameTable {
    type V = Seq<(Seq<char>, Handle)>;

    open spec fn view(&self) -> Seq<(Seq<char>, Handle)> {
        Seq::new(self.entries@.len(), |i: int| (self.entries@[i].0@, self.entries@[i].1))
    }
}

impl NameTable {
    /// A table without names.
    pub fn new() -> (table: NameTable)
        ensures
            table@ == Seq::<(Seq<char>, Handle)>::empty(),
    {
        let table = NameTable { entries: Vec::new() };
        assert(table@ =~= Seq::<(Seq<char>, Handle)>::empty());
        table
    }

    /// Declares a name. An earlier declaration of the same name is hidden
    /// from now on.
    pub fn insert(&mut self, name: String, id: Handle)
        ensures
            final(self)@ == old(self)@.push((name@, id)),
    {
        self.entries.push((name, id));
        assert(self@ =~= old(self)@.push((name@, id)));
    }

    /// The handle of a name, if the name was declared.
    pub fn get(&self, name: &str) -> (found: Option<Handle>)
        ensures
            found == lookup(self@, name@),
    {
        let key = String::from_str(name);
        let mut i: usize = self.entries.len();
        assert(self@.take(i as int) =~= self@);
        while i > 0
            invariant
                i <= self.entries@.len(),
                key@ == name@,
                lookup(self@, name@) == lookup(self@.take(i as int), name@),
            decreases i,
        {
            i -= 1;
            assert(self@.take(i + 1).last() == self@[i as int]);
            assert(self@.take(i + 1).drop_last() =~= self@.take(i as int));
            if self.entries[i].0 == key {
                return Some(self.entries[i].1);
            }
        }
        assert(self@.take(0).len() == 0);
        None
    }

    /// The handle of a name, or the error that says in which role the name
    /// was not found.
    pub fn resolve(&self, name: &str, role: Role) -> (found: Result<Handle, CompileError>)
        ensures
            resolved(self@, name@, role, found),
    {
        match self.get(name) {
            Some(id) => Ok(id),
            None => Err(CompileError::NotFound { role, name: String::from_str(name) }),
        }
    }
}

/// `found` is what resolving `name` in `role` gives.
pub open spec fn resolved(
    entries: Seq<(Seq<char>, Handle)>,
    name: Seq<char>,
    role: Role,
    found: Result<Handle, CompileError>,
) -> bool {
    match found {
        Ok(id) => lookup(entries, name) == Some(id),
        Err(e) => lookup(entries, name) is None && e.missing() == Some((role, name)),
    }
}

/// The handles of the names, in their order. Every name must be declared.
pub open spec fn handles_of(entries: Seq<(Seq<char>, Handle)>, names: Seq<Seq<char>>) -> Seq<Handle> {
    Seq::new(names.len(), |i: int| lookup(entries, names[i]).unwrap())
}

/// Every one of the names is declared.
pub open spec fn all_declared(entries: Seq<(Seq<char>, Handle)>, names: Seq<Seq<char>>) -> bool {
    forall|i: int| 0 <= i < names.len() ==> lookup(entries, #[trigger] names[i]) is Some
}

/// The name at `i` is the first of the names that is not declared.
pub open spec fn first_undeclared(
    entries: Seq<(Seq<char>, Handle)>,
    names: Seq<Seq<char>>,
    i: int,
) -> bool {
    &&& 0 <= i < names.len()
    &&& lookup(entries, names[i]) is None
    &&& all_declared(entries, names.take(i))
}

/// Every handle in the table resolves to a joint.
pub open spec fn table_resolves(entries: Seq<(Seq<char>, Handle)>, joints: Map<JointId, Joint>) -> bool {
    forall|i: int| 0 <= i < entries.len() ==> joints.contains_key((#[trigger] entries[i]).1)
}

/// Where every handle of a table resolves, so does the handle of a name
/// that is found in it.
pub proof fn lemma_lookup_resolves(
    entries: Seq<(Seq<char>, Handle)>,
    joints: Map<JointId, Joint>,
    name: Seq<char>,
)
    requires
        table_resolves(entries, joints),
        lookup(entries, name) is Some,
    ensures
        joints.contains_key(lookup(entries, name).unwrap()),
{
    lemma_lookup(entries, name);
    let i = choose|i: int|
        0 <= i < entries.len() && #[trigger] entries[i] == (name, lookup(entries, name).unwrap())
            && forall|j: int| i < j < entries.len() ==> (#[trigger] entries[j]).0 != name;
    assert(joints.contains_key(entries[i].1));
}

/// The constraints of each kind, from their parts.
pub open spec fn distance_constraint(a: JointId, b: JointId, value: Scalar) -> Constraint {
    Constraint::Distance(DistanceConstraint { joint_a: a, joint_b: b, target_distance: value })
}

pub open spec fn fixed_constraint(joints: Map<JointId, Joint>, id: JointId) -> Constraint {
    Constraint::FixedPosition(
        FixedPositionConstraint { joint_id: id, target_position: joints[id].position },
    )
}

pub open spec fn plane_constraint(id: JointId, normal: Vec3, plane_point: Vec3) -> Constraint {
    Constraint::Plane(PlaneConstraint { joint_id: id, normal, plane_point })
}

pub open spec fn prismatic_vector_constraint(id: JointId, axis: Vec3, origin: Vec3) -> Constraint {
    Constraint::PrismaticVector(PrismaticConstraintVector { joint_id: id, axis, origin })
}

pub open spec fn prismatic_link_constraint(id: JointId, link: LinkId, origin: Vec3) -> Constraint {
    Constraint::PrismaticLink(PrismaticConstraintLink { joint_id: id, link_id: link, origin })
}

pub open spec fn fixed_angle_constraint(a: JointId, b: JointId, pivot: JointId, angle: Scalar) -> Constraint {
    Constraint::FixedAngle(
        FixedAngleConstraint {
            joint_a_id: a,
            joint_b_id: b,
            pivot_joint_id: pivot,
            target_angle: angle,
        },
    )
}

pub open spec fn revolute_constraint(
    pivot: JointId,
    moving: JointId,
    rest_direction: Vec3,
    min_angle: Scalar,
    max_angle: Scalar,
) -> Constraint {
    Constraint::Revolute(
        RevoluteConstraint {
            pivot_joint_id: pivot,
            moving_joint_id: moving,
            rest_direction,
            min_angle,
            max_angle,
        },
    )
}

/// The constraints that hold each of the joints where it is now.
pub open spec fn fixed_constraints(joints: Map<JointId, Joint>, ids: Seq<JointId>) -> Seq<Constraint> {
    Seq::new(ids.len(), |i: int| fixed_constraint(joints, ids[i]))
}

/// The constraints that keep each of the joints in one plane.
pub open spec fn plane_constraints(ids: Seq<JointId>, normal: Vec3, plane_point: Vec3) -> Seq<
    Constraint,
> {
    Seq::new(ids.len(), |i: int| plane_constraint(ids[i], normal, plane_point))
}

/// The constraints that keep each of the joints on the line along one link.
pub open spec fn prismatic_link_constraints(ids: Seq<JointId>, link: LinkId, origin: Vec3) -> Seq<
    Constraint,
> {
    Seq::new(ids.len(), |i: int| prismatic_link_constraint(ids[i], link, origin))
}

/// The constraints keep each of the joints on the line through `origin`
/// along what `normalize` made of `axis`.
pub open spec fn prismatic_vector_constraints<U: Fn(Vec3) -> Vec3>(
    ids: Seq<JointId>,
    axis: Vec3,
    origin: Vec3,
    normalize: &U,
    constraints: Seq<Constraint>,
) -> bool {
    &&& constraints.len() == ids.len()
    &&& forall|i: int|
        0 <= i < ids.len() ==> exists|unit: Vec3| #[trigger]
            normalize.ensures((axis,), unit) && #[trigger] constraints[i]
                == prismatic_vector_constraint(ids[i], unit, origin)
}

/// What making one constraint for each of the names has done: all names were
/// declared and `added` are the constraints for them, or the error names the
/// first that was not and `added` are the constraints for those before it.
pub open spec fn each_bound(
    entries: Seq<(Seq<char>, Handle)>,
    names: Seq<Seq<char>>,
    r: Result<(), CompileError>,
    done: int,
) -> bool {
    match r {
        Ok(_) => all_declared(entries, names) && done == names.len(),
        Err(e) => first_undeclared(entries, names, done) && e.missing() == Some(
            (Role::Joint, names[done]),
        ),
    }
}

/// Adds the constraint that keeps two joints at a distance.
pub fn apply_distance(
    sim: &mut Simulation,
    joint_name_to_id: &NameTable,
    a: &str,
    b: &str,
    value: Scalar,
) -> (r: Result<(), CompileError>)
    ensures
        match r {
            Ok(_) => lookup(joint_name_to_id@, a@) is Some && lookup(joint_name_to_id@, b@) is Some
                && final(sim).constraints@ == old(sim).constraints@.push(
                distance_constraint(
                    lookup(joint_name_to_id@, a@).unwrap(),
                    lookup(joint_name_to_id@, b@).unwrap(),
                    value,
                ),
            ),
            Err(e) => final(sim).constraints@ == old(sim).constraints@ && e.missing() == Some(
                (
                    Role::Joint,
                    if lookup(joint_name_to_id@, a@) is None {
                        a@
                    } else {
                        b@
                    },
                ),
            ) && (lookup(joint_name_to_id@, a@) is None || lookup(joint_name_to_id@, b@) is None),
        },
        final(sim).joint_map() == old(sim).joint_map(),
        final(sim).link_map() == old(sim).link_map(),
{
    let joint_a = joint_name_to_id.resolve(a, Role::Joint)?;
    let joint_b = joint_name_to_id.resolve(b, Role::Joint)?;
    sim.constraints.push(
        Constraint::Distance(
            DistanceConstraint { joint_a, joint_b, target_distance: value },
        ),
    );
    Ok(())
}

/// Adds, for each of the joints, the constraint that holds it where it is.
pub fn apply_fixed(sim: &mut Simulation, joint_name_to_id: &NameTable, joints: &[String]) -> (r:
    Result<(), CompileError>)
    requires
        table_resolves(joint_name_to_id@, old(sim).joint_map()),
    ensures
        exists|done: int|
            #![trigger joints.deep_view().take(done)]
            each_bound(joint_name_to_id@, joints.deep_view(), r, done) && final(sim).constraints@
                == old(sim).constraints@ + fixed_constraints(
                old(sim).joint_map(),
                handles_of(joint_name_to_id@, joints.deep_view().take(done)),
            ),
        final(sim).joint_map() == old(sim).joint_map(),
        final(sim).link_map() == old(sim).link_map(),
{
    let ghost names = joints.deep_view();
    let ghost before = sim.constraints@;
    let ghost joint_map = sim.joint_map();
    let mut i: usize = 0;
    assert(before =~= before + fixed_constraints(
        joint_map,
        handles_of(joint_name_to_id@, names.take(0)),
    ));
    while i < joints.len()
        invariant
            i <= joints@.len(),
            names == joints.deep_view(),
            names.len() == joints@.len(),
            before == old(sim).constraints@,
            joint_map == old(sim).joint_map(),
            table_resolves(joint_name_to_id@, joint_map),
            sim.joint_map() == joint_map,
            sim.link_map() == old(sim).link_map(),
            all_declared(joint_name_to_id@, names.take(i as int)),
            sim.constraints@ == before + fixed_constraints(
                joint_map,
                handles_of(joint_name_to_id@, names.take(i as int)),
            ),
        decreases joints@.len() - i,
    {
        assert(names[i as int] == joints@[i as int]@);
        let id = match joint_name_to_id.resolve(joints[i].as_str(), Role::Joint) {
            Ok(id) => id,
            Err(e) => {
                assert(first_undeclared(joint_name_to_id@, names, i as int));
                assert(each_bound(joint_name_to_id@, names, Err::<(), CompileError>(e), i as int));
                return Err(e);
            },
        };
        proof {
            lemma_lookup_resolves(joint_name_to_id@, joint_map, names[i as int]);
        }
        let target_position = sim.position_of(id).unwrap();
        sim.constraints.push(
            Constraint::FixedPosition(FixedPositionConstraint { joint_id: id, target_position }),
        );
        proof {
            lemma_take_push(joint_name_to_id@, names, i as int);
            assert(sim.constraints@ =~= before + fixed_constraints(
                joint_map,
                handles_of(joint_name_to_id@, names.take(i + 1)),
            ));
        }
        i += 1;
    }
    assert(names.take(i as int) =~= names);
    assert(each_bound(joint_name_to_id@, names, Ok::<(), CompileError>(()), i as int));
    Ok(())
}

/// Taking one more name adds its handle at the end, and keeps all declared
/// if the name is.
proof fn lemma_take_push(entries: Seq<(Seq<char>, Handle)>, names: Seq<Seq<char>>, i: int)
    requires
        0 <= i < names.len(),
        all_declared(entries, names.take(i)),
        lookup(entries, names[i]) is Some,
    ensures
        all_declared(entries, names.take(i + 1)),
        handles_of(entries, names.take(i + 1)) == handles_of(entries, names.take(i)).push(
            lookup(entries, names[i]).unwrap(),
        ),
{
    assert forall|k: int| 0 <= k < names.take(i + 1).len() implies lookup(
        entries,
        #[trigger] names.take(i + 1)[k],
    ) is Some by {
        if k < i {
            assert(names.take(i)[k] == names[k]);
        }
    }
    assert(handles_of(entries, names.take(i + 1)) =~= handles_of(entries, names.take(i)).push(
        lookup(entries, names[i]).unwrap(),
    ));
}

/// Adds, for each of the joints, the constraint that keeps it in the plane
/// through `point`, or through the origin if no point is given.
pub fn apply_plane(
    sim: &mut Simulation,
    joint_name_to_id: &NameTable,
    joints: &[String],
    normal: Vec3,
    point: Option<Vec3>,
) -> (r: Result<(), CompileError>)
    ensures
        exists|done: int|
            #![trigger joints.deep_view().take(done)]
            each_bound(joint_name_to_id@, joints.deep_view(), r, done) && final(sim).constraints@
                == old(sim).constraints@ + plane_constraints(
                handles_of(joint_name_to_id@, joints.deep_view().take(done)),
                normal,
                match point {
                    Some(p) => p,
                    None => Vec3::spec_zero(),
                },
            ),
        final(sim).joint_map() == old(sim).joint_map(),
        final(sim).link_map() == old(sim).link_map(),
{
    let plane_point = match point {
        Some(p) => p,
        None => Vec3::zero(),
    };
    let ghost names = joints.deep_view();
    let ghost before = sim.constraints@;
    let mut i: usize = 0;
    assert(before =~= before + plane_constraints(
        handles_of(joint_name_to_id@, names.take(0)),
        normal,
        plane_point,
    ));
    while i < joints.len()
        invariant
            i <= joints@.len(),
            names == joints.deep_view(),
            names.len() == joints@.len(),
            before == old(sim).constraints@,
            plane_point == match point {
                Some(p) => p,
                None => Vec3::spec_zero(),
            },
            sim.joint_map() == old(sim).joint_map(),
            sim.link_map() == old(sim).link_map(),
            all_declared(joint_name_to_id@, names.take(i as int)),
            sim.constraints@ == before + plane_constraints(
                handles_of(joint_name_to_id@, names.take(i as int)),
                normal,
                plane_point,
            ),
        decreases joints@.len() - i,
    {
        assert(names[i as int] == joints@[i as int]@);
        let id = match joint_name_to_id.resolve(joints[i].as_str(), Role::Joint) {
            Ok(id) => id,
            Err(e) => {
                assert(first_undeclared(joint_name_to_id@, names, i as int));
                assert(each_bound(joint_name_to_id@, names, Err::<(), CompileError>(e), i as int));
                return Err(e);
            },
        };
        sim.constraints.push(Constraint::Plane(PlaneConstraint { joint_id: id, normal, plane_point }));
        proof {
            lemma_take_push(joint_name_to_id@, names, i as int);
            assert(sim.constraints@ =~= before + plane_constraints(
                handles_of(joint_name_to_id@, names.take(i + 1)),
                normal,
                plane_point,
            ));
        }
        i += 1;
    }
    assert(names.take(i as int) =~= names);
    assert(each_bound(joint_name_to_id@, names, Ok::<(), CompileError>(()), i as int));
    Ok(())
}

/// Adds, for each of the joints, the constraint that keeps it on the line
/// through `origin` along the named link. The link is looked up first.
pub fn apply_prismatic_link(
    sim: &mut Simulation,
    joint_name_to_id: &NameTable,
    link_name_to_id: &NameTable,
    joints: &[String],
    link_name: &str,
    origin: Vec3,
) -> (r: Result<(), CompileError>)
    ensures
        match lookup(link_name_to_id@, link_name@) {
            Some(link) => exists|done: int|
                #![trigger joints.deep_view().take(done)]
                each_bound(joint_name_to_id@, joints.deep_view(), r, done) && final(sim).constraints@ == old(sim).constraints@ + prismatic_link_constraints(
                    handles_of(joint_name_to_id@, joints.deep_view().take(done)),
                    link,
                    origin,
                ),
            None => r is Err && r.unwrap_err().missing() == Some((Role::Link, link_name@)) && final(sim).constraints@ == old(sim).constraints@,
        },
        final(sim).joint_map() == old(sim).joint_map(),
        final(sim).link_map() == old(sim).link_map(),
{
    let link = link_name_to_id.resolve(link_name, Role::Link)?;
    let ghost names = joints.deep_view();
    let ghost before = sim.constraints@;
    let mut i: usize = 0;
    assert(before =~= before + prismatic_link_constraints(
        handles_of(joint_name_to_id@, names.take(0)),
        link,
        origin,
    ));
    while i < joints.len()
        invariant
            i <= joints@.len(),
            names == joints.deep_view(),
            names.len() == joints@.len(),
            before == old(sim).constraints@,
            lookup(link_name_to_id@, link_name@) == Some(link),
            sim.joint_map() == old(sim).joint_map(),
            sim.link_map() == old(sim).link_map(),
            all_declared(joint_name_to_id@, names.take(i as int)),
            sim.constraints@ == before + prismatic_link_constraints(
                handles_of(joint_name_to_id@, names.take(i as int)),
                link,
                origin,
            ),
        decreases joints@.len() - i,
    {
        assert(names[i as int] == joints@[i as int]@);
        let id = match joint_name_to_id.resolve(joints[i].as_str(), Role::Joint) {
            Ok(id) => id,
            Err(e) => {
                assert(first_undeclared(joint_name_to_id@, names, i as int));
                assert(each_bound(joint_name_to_id@, names, Err::<(), CompileError>(e), i as int));
                return Err(e);
            },
        };
        sim.constraints.push(
            Constraint::PrismaticLink(
                PrismaticConstraintLink { joint_id: id, link_id: link, origin },
            ),
        );
        proof {
            lemma_take_push(joint_name_to_id@, names, i as int);
            assert(sim.constraints@ =~= before + prismatic_link_constraints(
                handles_of(joint_name_to_id@, names.take(i + 1)),
                link,
                origin,
            ));
        }
        i += 1;
    }
    assert(names.take(i as int) =~= names);
    assert(each_bound(joint_name_to_id@, names, Ok::<(), CompileError>(()), i as int));
    Ok(())
}

/// Adds, for each of the joints, the constraint that keeps it on the line
/// through `origin` along `axis`. The axis is stored as `normalize` returns it.
pub fn apply_prismatic_vector<U: Fn(Vec3) -> Vec3>(
    sim: &mut Simulation,
    joint_name_to_id: &NameTable,
    joints: &[String],
    axis: Vec3,
    origin: Vec3,
    normalize: &U,
) -> (r: Result<(), CompileError>)
    requires
        forall|v: Vec3| normalize.requires((v,)),
    ensures
        exists|done: int, added: Seq<Constraint>|
            #![trigger joints.deep_view().take(done), old(sim).constraints@ + added]
            each_bound(joint_name_to_id@, joints.deep_view(), r, done) && final(sim).constraints@
                == old(sim).constraints@ + added && prismatic_vector_constraints(
                handles_of(joint_name_to_id@, joints.deep_view().take(done)),
                axis,
                origin,
                normalize,
                added,
            ),
        final(sim).joint_map() == old(sim).joint_map(),
        final(sim).link_map() == old(sim).link_map(),
{
    let ghost names = joints.deep_view();
    let ghost before = sim.constraints@;
    let ghost mut added = Seq::<Constraint>::empty();
    let mut i: usize = 0;
    assert(before =~= before + added);
    while i < joints.len()
        invariant
            forall|v: Vec3| normalize.requires((v,)),
            i <= joints@.len(),
            names == joints.deep_view(),
            names.len() == joints@.len(),
            before == old(sim).constraints@,
            sim.joint_map() == old(sim).joint_map(),
            sim.link_map() == old(sim).link_map(),
            all_declared(joint_name_to_id@, names.take(i as int)),
            sim.constraints@ == before + added,
            prismatic_vector_constraints(
                handles_of(joint_name_to_id@, names.take(i as int)),
                axis,
                origin,
                normalize,
                added,
            ),
        decreases joints@.len() - i,
    {
        assert(names[i as int] == joints@[i as int]@);
        let id = match joint_name_to_id.resolve(joints[i].as_str(), Role::Joint) {
            Ok(id) => id,
            Err(e) => {
                assert(first_undeclared(joint_name_to_id@, names, i as int));
                assert(each_bound(joint_name_to_id@, names, Err::<(), CompileError>(e), i as int));
                return Err(e);
            },
        };
        let unit = normalize(axis);
        sim.constraints.push(
            Constraint::PrismaticVector(
                PrismaticConstraintVector { joint_id: id, axis: unit, origin },
            ),
        );
        proof {
            lemma_take_push(joint_name_to_id@, names, i as int);
            let longer = added.push(prismatic_vector_constraint(id, unit, origin));
            let ids = handles_of(joint_name_to_id@, names.take(i + 1));
            assert forall|k: int| 0 <= k < ids.len() implies exists|unit: Vec3| #[trigger]
                normalize.ensures((axis,), unit) && #[trigger] longer[k]
                    == prismatic_vector_constraint(ids[k], unit, origin) by {
                if k < i {
                    let earlier = handles_of(joint_name_to_id@, names.take(i as int));
                    assert(ids[k] == earlier[k]);
                    let u = choose|u: Vec3| #[trigger]
                        normalize.ensures((axis,), u) && #[trigger] added[k]
                            == prismatic_vector_constraint(earlier[k], u, origin);
                    assert(normalize.ensures((axis,), u) && longer[k]
                        == prismatic_vector_constraint(ids[k], u, origin));
                } else {
                    assert(normalize.ensures((axis,), unit) && longer[k]
                        == prismatic_vector_constraint(ids[k], unit, origin));
                }
            }
            assert(sim.constraints@ =~= before + longer);
            added = longer;
        }
        i += 1;
    }
    assert(names.take(i as int) =~= names);
    assert(each_bound(joint_name_to_id@, names, Ok::<(), CompileError>(()), i as int));
    Ok(())
}

/// The first of three names that is not declared, with the role in which it
/// was looked up; the names are looked up in the order given.
pub open spec fn first_missing_of_three(
    entries: Seq<(Seq<char>, Handle)>,
    first: (Seq<char>, Role),
    second: (Seq<char>, Role),
    third: (Seq<char>, Role),
) -> Option<(Role, Seq<char>)> {
    if lookup(entries, first.0) is None {
        Some((first.1, first.0))
    } else if lookup(entries, second.0) is None {
        Some((second.1, second.0))
    } else if lookup(entries, third.0) is None {
        Some((third.1, third.0))
    } else {
        None
    }
}

/// Adds the constraint that keeps the angle at a pivot between two joints.
/// The names are looked up in the order `joint_a`, `joint_b`, `pivot`.
pub fn apply_fixed_angle(
    sim: &mut Simulation,
    joint_name_to_id: &NameTable,
    joint_a: &str,
    pivot: &str,
    joint_b: &str,
    angle: Scalar,
) -> (r: Result<(), CompileError>)
    ensures
        match first_missing_of_three(
            joint_name_to_id@,
            (joint_a@, Role::Joint),
            (joint_b@, Role::Joint),
            (pivot@, Role::PivotJoint),
        ) {
            Some(missing) => r is Err && r.unwrap_err().missing() == Some(missing) && final(sim).constraints@ == old(sim).constraints@,
            None => r is Ok && final(sim).constraints@ == old(sim).constraints@.push(
                fixed_angle_constraint(
                    lookup(joint_name_to_id@, joint_a@).unwrap(),
                    lookup(joint_name_to_id@, joint_b@).unwrap(),
                    lookup(joint_name_to_id@, pivot@).unwrap(),
                    angle,
                ),
            ),
        },
        final(sim).joint_map() == old(sim).joint_map(),
        final(sim).link_map() == old(sim).link_map(),
{
    let joint_a_id = joint_name_to_id.resolve(joint_a, Role::Joint)?;
    let joint_b_id = joint_name_to_id.resolve(joint_b, Role::Joint)?;
    let pivot_joint_id = joint_name_to_id.resolve(pivot, Role::PivotJoint)?;
    sim.constraints.push(
        Constraint::FixedAngle(
            FixedAngleConstraint { joint_a_id, joint_b_id, pivot_joint_id, target_angle: angle },
        ),
    );
    Ok(())
}

/// Adds the constraint that keeps the angle of a joint about a pivot between
/// two bounds. The pivot is looked up first.
pub fn apply_revolute(
    sim: &mut Simulation,
    joint_name_to_id: &NameTable,
    pivot_joint: &str,
    moving_joint: &str,
    rest_direction: Vec3,
    min_angle: Scalar,
    max_angle: Scalar,
) -> (r: Result<(), CompileError>)
    ensures
        match r {
            Ok(_) => lookup(joint_name_to_id@, pivot_joint@) is Some && lookup(
                joint_name_to_id@,
                moving_joint@,
            ) is Some && final(sim).constraints@ == old(sim).constraints@.push(
                revolute_constraint(
                    lookup(joint_name_to_id@, pivot_joint@).unwrap(),
                    lookup(joint_name_to_id@, moving_joint@).unwrap(),
                    rest_direction,
                    min_angle,
                    max_angle,
                ),
            ),
            Err(e) => final(sim).constraints@ == old(sim).constraints@ && e.missing() == Some(
                if lookup(joint_name_to_id@, pivot_joint@) is None {
                    (Role::PivotJoint, pivot_joint@)
                } else {
                    (Role::MovingJoint, moving_joint@)
                },
            ) && (lookup(joint_name_to_id@, pivot_joint@) is None || lookup(
                joint_name_to_id@,
                moving_joint@,
            ) is None),
        },
        final(sim).joint_map() == old(sim).joint_map(),
        final(sim).link_map() == old(sim).link_map(),
{
    let pivot_joint_id = joint_name_to_id.resolve(pivot_joint, Role::PivotJoint)?;
    let moving_joint_id = joint_name_to_id.resolve(moving_joint, Role::MovingJoint)?;
    sim.constraints.push(
        Constraint::Revolute(
            RevoluteConstraint {
                pivot_joint_id,
                moving_joint_id,
                rest_direction,
                min_angle,
                max_angle,
            },
        ),
    );
    Ok(())
}

} // verus!
