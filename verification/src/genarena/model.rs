//! The slots of an arena as a sequence: what its free list is, how many
//! slots are occupied, and what the operations make of the slots.

use super::{Entry, Index};
use vstd::prelude::*;

verus! {

/// The generation stored in a slot: the one its occupant has, or the one its
/// next occupant will get.
pub open spec fn stored_generation<T>(e: Entry<T>) -> u64 {
    match e {
        Entry::Free { next_generation, .. } => next_generation,
        Entry::Occupied { generation, .. } => generation,
    }
}

/// The number of occupied slots among `slots`.
pub open spec fn occupied_count<T>(slots: Seq<Entry<T>>) -> nat
    decreases slots.len(),
{
    if slots.len() == 0 {
        0
    } else {
        occupied_count(slots.drop_last()) + if slots.last() is Occupied {
            1nat
        } else {
            0nat
        }
    }
}

/// `chain` is the path that the free links trace from `head` to the end of
/// the list: each slot on it is free and names the next one, the last names
/// none.
pub open spec fn chain_links<T>(slots: Seq<Entry<T>>, head: Option<usize>, chain: Seq<usize>) -> bool {
    &&& head == (if chain.len() > 0 {
        Some(chain[0])
    } else {
        None
    })
    &&& forall|k: int|
        0 <= k < chain.len() ==> {
            &&& (#[trigger] chain[k]) < slots.len()
            &&& slots[chain[k] as int] is Free
            &&& slots[chain[k] as int]->next_free == (if k + 1 < chain.len() {
                Some(chain[k + 1])
            } else {
                None
            })
        }
}

/// `chain` is the free list of `slots`: the path from `head`, which visits
/// each free slot exactly once.
#[verifier::opaque]
pub open spec fn is_free_list<T>(slots: Seq<Entry<T>>, head: Option<usize>, chain: Seq<usize>) -> bool {
    &&& chain_links(slots, head, chain)
    &&& chain.no_duplicates()
    &&& forall|i: int| 0 <= i < slots.len() && (#[trigger] slots[i]) is Free ==> chain.contains(i as usize)
}

/// The slots that a reservation of `n` slots appends behind `start` existing
/// ones: free at generation 0 and linked in index order, the last one to
/// `tail`.
pub open spec fn fresh_slots<T>(start: int, n: int, tail: Option<usize>) -> Seq<Entry<T>> {
    Seq::new(
        n as nat,
        |k: int|
            Entry::Free {
                next_generation: 0,
                next_free: if k + 1 < n {
                    Some((start + k + 1) as usize)
                } else {
                    tail
                },
            },
    )
}

/// The slots after a `clear`: every slot free and linked to the one behind
/// it, the generation of each slot that was occupied raised by one.
pub open spec fn cleared_slots<T>(slots: Seq<Entry<T>>) -> Seq<Entry<T>> {
    Seq::new(
        slots.len(),
        |i: int|
            Entry::Free {
                next_generation: match slots[i] {
                    Entry::Free { next_generation, .. } => next_generation,
                    Entry::Occupied { generation, .. } => (generation + 1) as u64,
                },
                next_free: if i + 1 < slots.len() {
                    Some((i + 1) as usize)
                } else {
                    None
                },
            },
    )
}

/// The indices `start`, `start + 1`, ..., `start + n - 1`.
pub open spec fn index_run(start: int, n: int) -> Seq<usize> {
    Seq::new(n as nat, |k: int| (start + k) as usize)
}

/// There are no more occupied slots than slots.
pub proof fn lemma_occupied_count_bound<T>(slots: Seq<Entry<T>>)
    ensures
        occupied_count(slots) <= slots.len(),
    decreases slots.len(),
{
    if slots.len() > 0 {
        lemma_occupied_count_bound(slots.drop_last());
    }
}

/// Writing a slot changes the count of occupied slots by what the slot
/// was and what it becomes.
pub proof fn lemma_occupied_count_update<T>(slots: Seq<Entry<T>>, i: int, e: Entry<T>)
    requires
        0 <= i < slots.len(),
    ensures
        occupied_count(slots.update(i, e)) + (if slots[i] is Occupied { 1int } else { 0int })
            == occupied_count(slots) + (if e is Occupied { 1int } else { 0int }),
    decreases slots.len(),
{
    let updated = slots.update(i, e);
    if i == slots.len() - 1 {
        assert(updated.drop_last() =~= slots.drop_last());
    } else {
        assert(updated.drop_last() =~= slots.drop_last().update(i, e));
        lemma_occupied_count_update(slots.drop_last(), i, e);
    }
}

/// Among free slots none is occupied.
pub proof fn lemma_occupied_count_all_free<T>(slots: Seq<Entry<T>>)
    requires
        forall|i: int| 0 <= i < slots.len() ==> (#[trigger] slots[i]) is Free,
    ensures
        occupied_count(slots) == 0,
    decreases slots.len(),
{
    if slots.len() > 0 {
        lemma_occupied_count_all_free(slots.drop_last());
    }
}

/// The occupied slots of two stretches of slots are those of the one and
/// those of the other.
pub proof fn lemma_occupied_count_concat<T>(a: Seq<Entry<T>>, b: Seq<Entry<T>>)
    ensures
        occupied_count(a + b) == occupied_count(a) + occupied_count(b),
    decreases b.len(),
{
    if b.len() == 0 {
        assert(a + b =~= a);
    } else {
        assert((a + b).drop_last() =~= a + b.drop_last());
        lemma_occupied_count_concat(a, b.drop_last());
    }
}

/// Two paths from the same head over the same slots agree up to position `k`.
proof fn lemma_chain_agree<T>(
    slots: Seq<Entry<T>>,
    head: Option<usize>,
    a: Seq<usize>,
    b: Seq<usize>,
    k: int,
)
    requires
        chain_links(slots, head, a),
        chain_links(slots, head, b),
        0 <= k,
    ensures
        k < a.len() <==> k < b.len(),
        k < a.len() ==> a[k] == b[k],
    decreases k,
{
    if k > 0 {
        lemma_chain_agree(slots, head, a, b, k - 1);
        if k < a.len() {
            let _ = a[k - 1];
            let _ = b[k - 1];
        }
        if k < b.len() {
            let _ = a[k - 1];
            let _ = b[k - 1];
        }
    }
}

/// The free links trace one path only.
pub proof fn lemma_chain_unique<T>(slots: Seq<Entry<T>>, head: Option<usize>, a: Seq<usize>, b: Seq<usize>)
    requires
        chain_links(slots, head, a),
        chain_links(slots, head, b),
    ensures
        a == b,
{
    lemma_chain_agree(slots, head, a, b, a.len() as int);
    lemma_chain_agree(slots, head, a, b, b.len() as int);
    assert forall|k: int| 0 <= k < a.len() implies a[k] == b[k] by {
        lemma_chain_agree(slots, head, a, b, k);
    }
    assert(a =~= b);
}

/// Two slot sequences differ at most in the values of their occupied slots.
pub open spec fn same_shape<T>(a: Seq<Entry<T>>, b: Seq<Entry<T>>) -> bool {
    &&& a.len() == b.len()
    &&& forall|i: int|
        0 <= i < a.len() ==> match #[trigger] a[i] {
            Entry::Free { next_generation, next_free } => b[i] == (Entry::<T>::Free {
                next_generation,
                next_free,
            }),
            Entry::Occupied { generation, .. } => b[i] is Occupied && b[i]->generation == generation,
        }
}

/// Writing to the values of occupied slots keeps the count of occupied
/// slots.
pub proof fn lemma_same_shape_count<T>(a: Seq<Entry<T>>, b: Seq<Entry<T>>)
    requires
        same_shape(a, b),
    ensures
        occupied_count(a) == occupied_count(b),
    decreases a.len(),
{
    if a.len() > 0 {
        let _ = a[a.len() - 1];
        assert forall|i: int| 0 <= i < a.drop_last().len() implies match #[trigger] a.drop_last()[i] {
            Entry::Free { next_generation, next_free } => b.drop_last()[i] == (Entry::<T>::Free {
                next_generation,
                next_free,
            }),
            Entry::Occupied { generation, .. } => b.drop_last()[i] is Occupied && b.drop_last()[i]->generation
                == generation,
        } by {
            let _ = a[i];
        }
        lemma_same_shape_count(a.drop_last(), b.drop_last());
    }
}

/// Writing to the values of occupied slots keeps the free list.
pub proof fn lemma_same_shape_free_list<T>(a: Seq<Entry<T>>, b: Seq<Entry<T>>, head: Option<usize>, chain: Seq<usize>)
    requires
        same_shape(a, b),
        is_free_list(a, head, chain),
    ensures
        is_free_list(b, head, chain),
{
    reveal(is_free_list);
    assert forall|k: int| 0 <= k < chain.len() implies {
        &&& (#[trigger] chain[k]) < b.len()
        &&& b[chain[k] as int] is Free
        &&& b[chain[k] as int]->next_free == (if k + 1 < chain.len() {
            Some(chain[k + 1])
        } else {
            None
        })
    } by {
        let _ = a[chain[k] as int];
    }
    assert forall|i: int| 0 <= i < b.len() && (#[trigger] b[i]) is Free implies chain.contains(i as usize) by {
        let _ = a[i];
    }
}

/// Writing to the values of occupied slots keeps what the invariant of an
/// arena speaks of.
pub(super) proof fn lemma_same_shape_wf<T>(a: Seq<Entry<T>>, b: Seq<Entry<T>>, head: Option<usize>)
    requires
        same_shape(a, b),
    ensures
        occupied_count(a) == occupied_count(b),
        forall|chain: Seq<usize>| is_free_list(a, head, chain) ==> is_free_list(b, head, chain),
        (exists|chain: Seq<usize>| is_free_list(a, head, chain)) ==> (choose|chain: Seq<usize>|
            is_free_list(a, head, chain)) == (choose|chain: Seq<usize>| is_free_list(b, head, chain)),
{
    lemma_same_shape_count(a, b);
    assert forall|chain: Seq<usize>| is_free_list(a, head, chain) implies is_free_list(b, head, chain) by {
        lemma_same_shape_free_list(a, b, head, chain);
    }
    if exists|chain: Seq<usize>| is_free_list(a, head, chain) {
        reveal(is_free_list);
        let ca = choose|chain: Seq<usize>| is_free_list(a, head, chain);
        let cb = choose|chain: Seq<usize>| is_free_list(b, head, chain);
        lemma_chain_unique(b, head, ca, cb);
    }
}

/// The handles and values of the occupied slots from index `from` on, in
/// index order.
pub open spec fn occupied_from<T>(slots: Seq<Entry<T>>, from: int) -> Seq<(Index, T)>
    decreases slots.len() - from,
{
    if from < 0 || from >= slots.len() {
        Seq::empty()
    } else {
        match slots[from] {
            Entry::Occupied { generation, value } => seq![(Index { index: from as usize, generation }, value)]
                + occupied_from(slots, from + 1),
            Entry::Free { .. } => occupied_from(slots, from + 1),
        }
    }
}

/// The occupied slots from `from` on and those before `from` are all the
/// occupied slots.
pub proof fn lemma_occupied_from_count<T>(slots: Seq<Entry<T>>, from: int)
    requires
        0 <= from <= slots.len(),
    ensures
        occupied_from(slots, from).len() + occupied_count(slots.take(from)) == occupied_count(slots),
    decreases slots.len() - from,
{
    if from == slots.len() {
        assert(slots.take(from) =~= slots);
    } else {
        lemma_occupied_from_count(slots, from + 1);
        assert(slots.take(from + 1).drop_last() =~= slots.take(from));
    }
}

/// What is still to come from `from` on depends on the slots from `from` on
/// alone.
pub proof fn lemma_occupied_from_frame<T>(a: Seq<Entry<T>>, b: Seq<Entry<T>>, from: int)
    requires
        a.len() == b.len(),
        0 <= from,
        forall|i: int| from <= i < a.len() ==> a[i] == b[i],
    ensures
        occupied_from(a, from) == occupied_from(b, from),
    decreases a.len() - from,
{
    if from < a.len() {
        lemma_occupied_from_frame(a, b, from + 1);
    }
}

/// `slots`, `length` and `head` are the parts of a well-formed arena: the
/// free links trace a list from `head` that visits each free slot once, and
/// `length` counts the occupied slots.
pub open spec fn raw_wf<T>(slots: Seq<Entry<T>>, length: usize, head: Option<usize>) -> bool {
    &&& exists|chain: Seq<usize>| is_free_list(slots, head, chain)
    &&& length == occupied_count(slots)
}

} // verus!
