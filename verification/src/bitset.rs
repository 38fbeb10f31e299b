//! The presence index's storage: one bit set of slot indices per attachment
//! type. The bit sets and the map that holds them are kept by outside crates;
//! this module states what the library relies on of them.

use hashbrown::HashMap;
use hibitset::{BitSet, BitSetAnd, BitSetLike};
use std::any::TypeId;
use vstd::prelude::*;

verus! {

/// `hibitset::BitSet`: a set of indices, kept in layers so that a walk over
/// it skips the empty stretches.
#[verifier::external_type_specification]
#[verifier::external_body]
pub struct ExBitSet(BitSet);

/// `std::any::TypeId`: the identifier of a type, here of an attachment type.
#[verifier::external_type_specification]
#[verifier::external_body]
pub struct ExTypeId(TypeId);

/// The bit sets of a collection, by attachment type: a `hashbrown::HashMap`
/// from type identifiers to bit sets.
#[verifier::external_body]
pub struct PresenceMap {
    map: HashMap<TypeId, BitSet>,
}

/// The indices that a bit set holds.
pub uninterp spec fn members(b: BitSet) -> Set<u32>;

/// The indices that a presence map marks, by attachment type: for each type
/// that it has a bit set for, the indices that the bit set holds.
pub uninterp spec fn presence_of(m: PresenceMap) -> Map<TypeId, Set<u32>>;

/// The least index that a bit set cannot hold: the fourth power of the
/// number of bits in a machine word.
pub open spec fn index_limit() -> u32 {
    if usize::BITS == 64 {
        0x100_0000
    } else {
        0x10_0000
    }
}

/// The least index that a bit set cannot hold.
pub fn max_index() -> (limit: u32)
    ensures
        limit == index_limit(),
{
    if usize::BITS == 64 {
        0x100_0000
    } else {
        0x10_0000
    }
}

/// `ids` counts upwards.
pub open spec fn ascending(ids: Seq<u32>) -> bool {
    forall|i: int, j: int| 0 <= i < j < ids.len() ==> ids[i] < ids[j]
}

/// `BitSet::with_capacity`: an empty set, with room for the indices below
/// `max`. The outside function panics on a `max` above the limit.
#[verifier::external_body]
pub(crate) fn bitset_with_capacity(max: u32) -> (b: BitSet)
    requires
        max <= index_limit(),
    ensures
        members(b) == Set::<u32>::empty(),
{
    BitSet::with_capacity(max)
}

/// `BitSet::add`: puts `id` into the set and tells whether it was there
/// already. The outside function panics on an `id` above the limit, and a
/// walk over the set does not reach an `id` at the limit.
#[verifier::external_body]
pub(crate) fn bitset_add(b: &mut BitSet, id: u32) -> (was: bool)
    requires
        id < index_limit(),
    ensures
        members(*final(b)) == members(*old(b)).insert(id),
        was == members(*old(b)).contains(id),
{
    b.add(id)
}

/// `BitSet::remove`: takes `id` out of the set and tells whether it was
/// there.
#[verifier::external_body]
pub(crate) fn bitset_remove(b: &mut BitSet, id: u32) -> (was: bool)
    ensures
        members(*final(b)) == members(*old(b)).remove(id),
        was == members(*old(b)).contains(id),
{
    b.remove(id)
}

/// `BitSetLike::iter` on a `BitSet`: the indices of the set, each once, from
/// the least upwards.
#[verifier::external_body]
pub(crate) fn bitset_iter(b: &BitSet) -> (ids: Vec<u32>)
    ensures
        ascending(ids@),
        forall|id: u32| ids@.contains(id) <==> members(*b).contains(id),
{
    b.iter().collect()
}

/// `BitSetAnd`, walked by `BitSetLike::iter` and gathered into a `BitSet`:
/// the set of the indices that are in both sets.
#[verifier::external_body]
pub(crate) fn bitset_and(a: &BitSet, b: &BitSet) -> (both: BitSet)
    ensures
        members(both) == members(*a).intersect(members(*b)),
{
    BitSetAnd(a, b).iter().collect()
}

/// `HashMap::new`: a map that holds no bit set.
#[verifier::external_body]
pub(crate) fn presence_new() -> (m: PresenceMap)
    ensures
        presence_of(m).dom() == Set::<TypeId>::empty(),
{
    PresenceMap { map: HashMap::new() }
}

/// `HashMap::insert`: `set` becomes the bit set of `id`, in place of the one
/// that was there, if any.
#[verifier::external_body]
pub(crate) fn presence_insert(m: &mut PresenceMap, id: TypeId, set: BitSet)
    ensures
        presence_of(*final(m)) == presence_of(*old(m)).insert(id, members(set)),
{
    m.map.insert(id, set);
}

/// `HashMap::get`: the bit set of `id`, if the map holds one.
#[verifier::external_body]
pub(crate) fn presence_get<'a>(m: &'a PresenceMap, id: &TypeId) -> (r: Option<&'a BitSet>)
    ensures
        match r {
            Some(set) => presence_of(*m).contains_key(*id) && members(*set) == presence_of(*m)[*id],
            None => !presence_of(*m).contains_key(*id),
        },
{
    m.map.get(id)
}

/// `HashMap::get_mut`: the bit set of `id` for writing, if the map holds
/// one. What is written to it is what the map holds for `id` afterwards; the
/// other bit sets stay as they are.
#[verifier::external_body]
pub(crate) fn presence_get_mut<'a>(m: &'a mut PresenceMap, id: &TypeId) -> (r: Option<&'a mut BitSet>)
    ensures
        match r {
            Some(set) => {
                &&& presence_of(*old(m)).contains_key(*id)
                &&& members(*set) == presence_of(*old(m))[*id]
                &&& presence_of(*final(m)) == presence_of(*old(m)).insert(*id, members(*final(set)))
            },
            None => !presence_of(*old(m)).contains_key(*id) && presence_of(*final(m)) == presence_of(*old(m)),
        },
{
    m.map.get_mut(id)
}

/// `HashMap::remove`: takes the bit set of `id` out of the map and returns
/// it, if the map holds one. The other bit sets stay as they are.
#[verifier::external_body]
pub(crate) fn presence_remove(m: &mut PresenceMap, id: &TypeId) -> (r: Option<BitSet>)
    ensures
        presence_of(*final(m)) == presence_of(*old(m)).remove(*id),
        match r {
            Some(set) => presence_of(*old(m)).contains_key(*id) && members(set) == presence_of(*old(m))[*id],
            None => !presence_of(*old(m)).contains_key(*id),
        },
{
    m.map.remove(id)
}

/// `HashMap::clone`: a map with a copy of each bit set, which holds the same
/// indices.
#[verifier::external_body]
pub(crate) fn presence_clone(m: &PresenceMap) -> (r: PresenceMap)
    ensures
        presence_of(r) == presence_of(*m),
{
    PresenceMap { map: m.map.clone() }
}

} // verus!
