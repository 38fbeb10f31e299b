//! The presence index: for each attachment type, the set of the slot indices
//! that are marked for it.

use crate::bitset::{
    ascending, bitset_add, bitset_and, bitset_iter, bitset_remove, index_limit, members, presence_get,
    presence_get_mut, presence_of, PresenceMap,
};
use std::any::TypeId;
use vstd::prelude::*;

verus! {

/// The marks of `index` after marking it for each indexed type among `ids`.
pub open spec fn marked_for(before: Map<TypeId, Set<u32>>, ids: Seq<TypeId>, index: u32) -> Map<
    TypeId,
    Set<u32>,
> {
    Map::new(
        |id: TypeId| before.contains_key(id),
        |id: TypeId|
            if ids.contains(id) {
                before[id].insert(index)
            } else {
                before[id]
            },
    )
}

/// The marks of `index` after taking its mark away for each indexed type
/// among `ids`.
pub open spec fn unmarked_for(before: Map<TypeId, Set<u32>>, ids: Seq<TypeId>, index: u32) -> Map<
    TypeId,
    Set<u32>,
> {
    Map::new(
        |id: TypeId| before.contains_key(id),
        |id: TypeId|
            if ids.contains(id) {
                before[id].remove(index)
            } else {
                before[id]
            },
    )
}

/// The marks of `index` after setting its mark for each indexed type among
/// `flags` as the last flag of that type says.
pub open spec fn flagged_for(before: Map<TypeId, Set<u32>>, flags: Seq<(TypeId, bool)>, index: u32) -> Map<
    TypeId,
    Set<u32>,
>
    decreases flags.len(),
{
    if flags.len() == 0 {
        before
    } else {
        let earlier = flagged_for(before, flags.drop_last(), index);
        let id = flags.last().0;
        if earlier.contains_key(id) {
            earlier.insert(
                id,
                if flags.last().1 {
                    earlier[id].insert(index)
                } else {
                    earlier[id].remove(index)
                },
            )
        } else {
            earlier
        }
    }
}

/// Marks `index` for `id`, where `id` is indexed.
pub(crate) fn mark_one(m: &mut PresenceMap, id: TypeId, index: u32)
    requires
        index < index_limit(),
    ensures
        presence_of(*final(m)) == (if presence_of(*old(m)).contains_key(id) {
            presence_of(*old(m)).insert(id, presence_of(*old(m))[id].insert(index))
        } else {
            presence_of(*old(m))
        }),
{
    let ghost before = presence_of(*m);
    match presence_get_mut(m, &id) {
        Some(bitset) => {
            bitset_add(bitset, index);
        },
        None => {},
    }
    proof {
        if before.contains_key(id) {
            assert(presence_of(*m) =~= before.insert(id, before[id].insert(index)));
        } else {
            assert(presence_of(*m) =~= before);
        }
    }
}

/// Takes the mark of `index` for `id` away, where `id` is indexed.
pub(crate) fn unmark_one(m: &mut PresenceMap, id: TypeId, index: u32)
    ensures
        presence_of(*final(m)) == (if presence_of(*old(m)).contains_key(id) {
            presence_of(*old(m)).insert(id, presence_of(*old(m))[id].remove(index))
        } else {
            presence_of(*old(m))
        }),
{
    let ghost before = presence_of(*m);
    match presence_get_mut(m, &id) {
        Some(bitset) => {
            bitset_remove(bitset, index);
        },
        None => {},
    }
    proof {
        if before.contains_key(id) {
            assert(presence_of(*m) =~= before.insert(id, before[id].remove(index)));
        } else {
            assert(presence_of(*m) =~= before);
        }
    }
}

/// Marks `index` for each indexed type among `ids`.
pub(crate) fn mark(m: &mut PresenceMap, ids: &Vec<TypeId>, index: u32)
    requires
        index < index_limit(),
    ensures
        presence_of(*final(m)) == marked_for(presence_of(*old(m)), ids@, index),
{
    let mut k: usize = 0;
    while k < ids.len()
        invariant
            k <= ids@.len(),
            index < index_limit(),
            presence_of(*m) =~~= marked_for(presence_of(*old(m)), ids@.take(k as int), index),
        decreases ids@.len() - k,
    {
        let id = ids[k];
        mark_one(m, id, index);
        proof {
            let before = presence_of(*old(m));
            assert(ids@.take(k + 1) =~= ids@.take(k as int).push(id));
            assert forall|t: TypeId| ids@.take(k + 1).contains(t) <==> (ids@.take(k as int).contains(t) || t
                == id) by {
                if ids@.take(k as int).contains(t) {
                    let j = choose|j: int| 0 <= j < ids@.take(k as int).len() && ids@.take(k as int)[j] == t;
                    assert(ids@.take(k + 1)[j] == t);
                }
                if t == id {
                    assert(ids@.take(k + 1)[k as int] == t);
                }
            }
        }
        k += 1;
    }
    proof {
        assert(ids@.take(ids@.len() as int) =~= ids@);
    }
}

/// Takes the mark of `index` away for each indexed type among `ids`.
pub(crate) fn unmark(m: &mut PresenceMap, ids: &Vec<TypeId>, index: u32)
    ensures
        presence_of(*final(m)) == unmarked_for(presence_of(*old(m)), ids@, index),
{
    let mut k: usize = 0;
    while k < ids.len()
        invariant
            k <= ids@.len(),
            presence_of(*m) =~~= unmarked_for(presence_of(*old(m)), ids@.take(k as int), index),
        decreases ids@.len() - k,
    {
        let id = ids[k];
        unmark_one(m, id, index);
        proof {
            assert(ids@.take(k + 1) =~= ids@.take(k as int).push(id));
            assert forall|t: TypeId| ids@.take(k + 1).contains(t) <==> (ids@.take(k as int).contains(t) || t
                == id) by {
                if ids@.take(k as int).contains(t) {
                    let j = choose|j: int| 0 <= j < ids@.take(k as int).len() && ids@.take(k as int)[j] == t;
                    assert(ids@.take(k + 1)[j] == t);
                }
                if t == id {
                    assert(ids@.take(k + 1)[k as int] == t);
                }
            }
        }
        k += 1;
    }
    proof {
        assert(ids@.take(ids@.len() as int) =~= ids@);
    }
}

/// Sets the mark of `index` for each indexed type among `flags` as its flag
/// says.
pub(crate) fn flag(m: &mut PresenceMap, flags: &Vec<(TypeId, bool)>, index: u32)
    requires
        index < index_limit(),
    ensures
        presence_of(*final(m)) == flagged_for(presence_of(*old(m)), flags@, index),
{
    let mut k: usize = 0;
    while k < flags.len()
        invariant
            k <= flags@.len(),
            index < index_limit(),
            presence_of(*m) == flagged_for(presence_of(*old(m)), flags@.take(k as int), index),
        decreases flags@.len() - k,
    {
        let id = flags[k].0;
        if flags[k].1 {
            mark_one(m, id, index);
        } else {
            unmark_one(m, id, index);
        }
        proof {
            assert(flags@.take(k + 1).drop_last() =~= flags@.take(k as int));
        }
        k += 1;
    }
    proof {
        assert(flags@.take(flags@.len() as int) =~= flags@);
    }
}

/// After the marks of `index` were set as `flags` say, where each flag of a
/// type says whether `carries` holds of it: `index` is marked for a type
/// among the flags if and only if `carries` holds of it, and nothing else
/// has changed.
pub proof fn lemma_flagged(
    before: Map<TypeId, Set<u32>>,
    flags: Seq<(TypeId, bool)>,
    index: u32,
    carries: spec_fn(TypeId) -> bool,
)
    requires
        forall|k: int| 0 <= k < flags.len() ==> (#[trigger] flags[k]).1 == carries(flags[k].0),
    ensures
        forall|id: TypeId| #[trigger] flagged_for(before, flags, index).contains_key(id) == before.contains_key(id),
        forall|id: TypeId, i: u32|
            before.contains_key(id) ==> (#[trigger] flagged_for(before, flags, index)[id].contains(i) == (if i
                == index && (exists|k: int| 0 <= k < flags.len() && flags[k].0 == id) {
                carries(id)
            } else {
                before[id].contains(i)
            })),
    decreases flags.len(),
{
    if flags.len() > 0 {
        let earlier = flags.drop_last();
        lemma_flagged(before, earlier, index, carries);
        let last = flags.last();
        let e = flagged_for(before, earlier, index);
        let f = flagged_for(before, flags, index);
        assert(flags[flags.len() - 1] == last);
        assert forall|id: TypeId| #[trigger] f.contains_key(id) == before.contains_key(id) by {
            assert(e.contains_key(id) == before.contains_key(id));
        }
        assert forall|id: TypeId, i: u32| before.contains_key(id) implies (#[trigger] f[id].contains(i) == (if i
            == index && (exists|k: int| 0 <= k < flags.len() && flags[k].0 == id) {
            carries(id)
        } else {
            before[id].contains(i)
        })) by {
            assert(e.contains_key(id));
            let _ = e[id].contains(i);
            if id == last.0 {
                assert(flags[flags.len() - 1].0 == id);
            } else {
                assert(f[id] == e[id]);
                if exists|k: int| 0 <= k < earlier.len() && earlier[k].0 == id {
                    let k = choose|k: int| 0 <= k < earlier.len() && earlier[k].0 == id;
                    assert(flags[k].0 == id);
                }
                if exists|k: int| 0 <= k < flags.len() && flags[k].0 == id {
                    let k = choose|k: int| 0 <= k < flags.len() && flags[k].0 == id;
                    assert(earlier[k].0 == id);
                }
            }
        }
    }
}


/// Each of `ids` is indexed.
pub open spec fn all_indexed(presence: Map<TypeId, Set<u32>>, ids: Seq<TypeId>) -> bool {
    forall|k: int| 0 <= k < ids.len() ==> presence.contains_key(#[trigger] ids[k])
}

/// `i` is marked for each of `ids`.
pub open spec fn marked_for_all(presence: Map<TypeId, Set<u32>>, ids: Seq<TypeId>, i: u32) -> bool {
    forall|k: int| 0 <= k < ids.len() ==> presence[#[trigger] ids[k]].contains(i)
}

/// The indices that are marked for each of `ids`, from the least upwards.
pub(crate) fn conjunction(m: &PresenceMap, ids: &Vec<TypeId>) -> (indices: Vec<u32>)
    requires
        ids@.len() > 0,
        all_indexed(presence_of(*m), ids@),
    ensures
        ascending(indices@),
        forall|i: u32| indices@.contains(i) <==> marked_for_all(presence_of(*m), ids@, i),
{
    let ghost presence = presence_of(*m);
    let first = match presence_get(m, &ids[0]) {
        Some(set) => set,
        None => {
            proof {
                let _ = ids@[0];
            }
            vstd::pervasive::unreached()
        },
    };
    if ids.len() == 1 {
        let indices = bitset_iter(first);
        proof {
            assert forall|i: u32| indices@.contains(i) <==> marked_for_all(presence, ids@, i) by {
                assert(members(*first) == presence[ids@[0]]);
                if marked_for_all(presence, ids@, i) {
                    assert(presence[ids@[0]].contains(i));
                }
            }
        }
        return indices;
    }
    let second = match presence_get(m, &ids[1]) {
        Some(set) => set,
        None => {
            proof {
                let _ = ids@[1];
            }
            vstd::pervasive::unreached()
        },
    };
    let mut both = bitset_and(first, second);
    let mut k: usize = 2;
    proof {
        assert(members(*first) == presence[ids@[0]]);
        assert(members(*second) == presence[ids@[1]]);
        assert forall|i: u32| members(both).contains(i) <==> marked_for_all(presence, ids@.take(2), i) by {
            if marked_for_all(presence, ids@.take(2), i) {
                assert(presence[ids@.take(2)[0]].contains(i));
                assert(presence[ids@.take(2)[1]].contains(i));
            }
        }
    }
    while k < ids.len()
        invariant
            2 <= k <= ids@.len(),
            presence == presence_of(*m),
            all_indexed(presence, ids@),
            forall|i: u32| members(both).contains(i) <==> marked_for_all(presence, ids@.take(k as int), i),
        decreases ids@.len() - k,
    {
        let next = match presence_get(m, &ids[k]) {
            Some(set) => set,
            None => {
                proof {
                    let _ = ids@[k as int];
                }
                vstd::pervasive::unreached()
            },
        };
        let ghost before = members(both);
        both = bitset_and(&both, next);
        proof {
            assert(members(*next) == presence[ids@[k as int]]);
            assert forall|i: u32| members(both).contains(i) <==> marked_for_all(
                presence,
                ids@.take(k + 1),
                i,
            ) by {
                if marked_for_all(presence, ids@.take(k + 1), i) {
                    assert(presence[ids@.take(k + 1)[k as int]].contains(i));
                    assert forall|j: int| 0 <= j < k implies presence[#[trigger] ids@.take(k as int)[j]].contains(
                        i,
                    ) by {
                        assert(presence[ids@.take(k + 1)[j]].contains(i));
                    }
                }
                if before.contains(i) && members(*next).contains(i) {
                    assert forall|j: int| 0 <= j < k + 1 implies presence[#[trigger] ids@.take(k + 1)[j]].contains(
                        i,
                    ) by {
                        if j < k {
                            assert(presence[ids@.take(k as int)[j]].contains(i));
                        }
                    }
                }
            }
        }
        k += 1;
    }
    proof {
        assert(ids@.take(ids@.len() as int) =~= ids@);
    }
    bitset_iter(&both)
}

} // verus!
