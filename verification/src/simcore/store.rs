//! The stores of joints and links.
//!
//! Both are arenas of the crate `generational_arena`. Verus does not look
//! inside them: what an arena holds is named by `joint_entries` and
//! `link_entries`, and the functions below state, in those terms, what the
//! arena's methods do. These statements are taken from the arena's source and
//! are not proved here.

use crate::simcore::types::{Handle, Joint, Link};
use generational_arena::Arena;
use generational_arena::Index;
use vstd::prelude::*;

verus! {

/// `generational_arena::Arena`: a store whose items are found by handles
/// that go stale when the item is removed. Nothing inside it is visible here.
#[verifier::external_type_specification]
#[verifier::external_body]
#[verifier::reject_recursive_types(T)]
pub struct ExArena<T>(Arena<T>);

/// The joints that an arena holds, each under its handle.
pub uninterp spec fn joint_entries(arena: Arena<Joint>) -> Map<Handle, Joint>;

/// The links that an arena holds, each under its handle.
pub uninterp spec fn link_entries(arena: Arena<Link>) -> Map<Handle, Link>;

/// `Arena::new`: an arena that holds nothing.
#[verifier::external_body]
pub(crate) fn joint_arena_new() -> (arena: Arena<Joint>)
    ensures
        joint_entries(arena) == (Map::<Handle, Joint>::empty()),
{
    Arena::new()
}

/// `Arena::insert`: the joint is added under a handle that was not in use,
/// and nothing else changes.
#[verifier::external_body]
pub(crate) fn joint_arena_insert(arena: &mut Arena<Joint>, joint: Joint) -> (id: Handle)
    ensures
        !joint_entries(*old(arena)).contains_key(id),
        joint_entries(*final(arena)) == joint_entries(*old(arena)).insert(id, joint),
{
    let (index, generation) = arena.insert(joint).into_raw_parts();
    Handle { index, generation }
}

/// `Arena::get`: the joint under the handle, if there is one.
#[verifier::external_body]
pub(crate) fn joint_arena_get(arena: &Arena<Joint>, id: Handle) -> (found: Option<&Joint>)
    ensures
        found.is_some() == joint_entries(*arena).contains_key(id),
        found.is_some() ==> *found.unwrap() == joint_entries(*arena)[id],
{
    arena.get(Index::from_raw_parts(id.index, id.generation))
}

/// `Arena::get_mut`: the joint under the handle, if there is one, to be
/// changed in place. Nothing else changes.
#[verifier::external_body]
pub(crate) fn joint_arena_get_mut(arena: &mut Arena<Joint>, id: Handle) -> (found: Option<
    &mut Joint,
>)
    ensures
        match found {
            Some(joint) => joint_entries(*old(arena)).contains_key(id) && *joint == joint_entries(
                *old(arena),
            )[id] && joint_entries(*final(arena)) == joint_entries(*old(arena)).insert(
                id,
                *final(joint),
            ),
            None => !joint_entries(*old(arena)).contains_key(id) && joint_entries(*final(arena))
                == joint_entries(*old(arena)),
        },
{
    arena.get_mut(Index::from_raw_parts(id.index, id.generation))
}

/// `Arena::get2_mut`: the joints under two handles, to be changed in place.
///
/// The method panics when the two handles are the same. Two different handles
/// of one slot are never both in use; for such a pair the method looks up
/// only the one of the later generation. Otherwise each handle is looked up
/// as `Arena::get_mut` does.
#[verifier::external_body]
pub(crate) fn joint_arena_get2_mut(arena: &mut Arena<Joint>, a: Handle, b: Handle) -> (found: (
    Option<&mut Joint>,
    Option<&mut Joint>,
))
    requires
        a != b,
    ensures
        a.index == b.index ==> !(joint_entries(*old(arena)).contains_key(a) && joint_entries(
            *old(arena),
        ).contains_key(b)),
        found.0.is_some() == (joint_entries(*old(arena)).contains_key(a) && (a.index != b.index
            || a.generation > b.generation)),
        found.1.is_some() == (joint_entries(*old(arena)).contains_key(b) && (a.index != b.index
            || a.generation < b.generation)),
        match found.0 {
            Some(joint) => *joint == joint_entries(*old(arena))[a],
            None => true,
        },
        match found.1 {
            Some(joint) => *joint == joint_entries(*old(arena))[b],
            None => true,
        },
        joint_entries(*final(arena)) == (match found {
            (Some(first), Some(second)) => joint_entries(*old(arena)).insert(
                a,
                *final(first),
            ).insert(b, *final(second)),
            (Some(first), None) => joint_entries(*old(arena)).insert(a, *final(first)),
            (None, Some(second)) => joint_entries(*old(arena)).insert(b, *final(second)),
            (None, None) => joint_entries(*old(arena)),
        }),
{
    arena.get2_mut(
        Index::from_raw_parts(a.index, a.generation),
        Index::from_raw_parts(b.index, b.generation),
    )
}

/// `count` is the number of handles in `ids`, of which there are finitely many.
pub open spec fn counts(count: usize, ids: Set<Handle>) -> bool {
    ids.finite() && count == ids.len()
}

/// `Arena::len`: the number of joints.
#[verifier::external_body]
pub(crate) fn joint_arena_len(arena: &Arena<Joint>) -> (count: usize)
    ensures
        counts(count, joint_entries(*arena).dom()),
{
    arena.len()
}

/// `Arena::iter`: the handles of all joints, each once.
#[verifier::external_body]
pub(crate) fn joint_arena_handles(arena: &Arena<Joint>) -> (ids: Vec<Handle>)
    ensures
        ids@.no_duplicates(),
        ids@.to_set() == joint_entries(*arena).dom(),
{
    arena.iter().map(
        |(id, _)|
            {
                let (index, generation) = id.into_raw_parts();
                Handle { index, generation }
            },
    ).collect()
}

/// `Arena::new`: an arena that holds nothing.
#[verifier::external_body]
pub(crate) fn link_arena_new() -> (arena: Arena<Link>)
    ensures
        link_entries(arena) == (Map::<Handle, Link>::empty()),
{
    Arena::new()
}

/// `Arena::insert`: the link is added under a handle that was not in use,
/// and nothing else changes.
#[verifier::external_body]
pub(crate) fn link_arena_insert(arena: &mut Arena<Link>, link: Link) -> (id: Handle)
    ensures
        !link_entries(*old(arena)).contains_key(id),
        link_entries(*final(arena)) == link_entries(*old(arena)).insert(id, link),
{
    let (index, generation) = arena.insert(link).into_raw_parts();
    Handle { index, generation }
}

/// `Arena::get`: the link under the handle, if there is one.
#[verifier::external_body]
pub(crate) fn link_arena_get(arena: &Arena<Link>, id: Handle) -> (found: Option<&Link>)
    ensures
        found.is_some() == link_entries(*arena).contains_key(id),
        found.is_some() ==> *found.unwrap() == link_entries(*arena)[id],
{
    arena.get(Index::from_raw_parts(id.index, id.generation))
}

/// `Arena::len`: the number of links.
#[verifier::external_body]
pub(crate) fn link_arena_len(arena: &Arena<Link>) -> (count: usize)
    ensures
        counts(count, link_entries(*arena).dom()),
{
    arena.len()
}

/// `Arena::iter`: the handles of all links, each once.
#[verifier::external_body]
pub(crate) fn link_arena_handles(arena: &Arena<Link>) -> (ids: Vec<Handle>)
    ensures
        ids@.no_duplicates(),
        ids@.to_set() == link_entries(*arena).dom(),
{
    arena.iter().map(
        |(id, _)|
            {
                let (index, generation) = id.into_raw_parts();
                Handle { index, generation }
            },
    ).collect()
}

} // verus!
