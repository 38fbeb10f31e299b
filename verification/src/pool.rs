//! The pool of one attachment type: payloads kept compactly behind small
//! integer handles.
//!
//! A pool is an array of slots, each vacant or occupied by a payload. The
//! vacant slots form a singly linked list; an insertion uses the slot at its
//! head and a removal puts the freed slot there, so that the slot freed last
//! is used first. A handle is the index of a slot. It carries no generation:
//! the record that holds a handle is what says that the handle is in use.

use vstd::prelude::*;

verus! {

/// A handle and the payload behind it.
pub type Pair<T> = (usize, T);

/// One slot of a pool: vacant, with the next vacant slot, or occupied.
enum Slot<T> {
    Vacant(Option<usize>),
    Occupied(T),
}

/// A pool of payloads of one type. Its view is the payloads by handle.
pub struct Pool<T> {
    entries: Vec<Slot<T>>,
    /// The head of the list of vacant slots.
    next: Option<usize>,
}

/// One of `pairs` has the handle `key`.
pub open spec fn has_key<T>(pairs: Seq<Pair<T>>, key: usize) -> bool {
    exists|i: int| 0 <= i < pairs.len() && (#[trigger] pairs[i]).0 == key
}

/// The pair at position `i` is the last of `pairs` with its handle.
pub open spec fn last_of_key<T>(pairs: Seq<Pair<T>>, i: int) -> bool {
    0 <= i < pairs.len() && forall|j: int| i < j < pairs.len() ==> (#[trigger] pairs[j]).0 != pairs[i].0
}

/// The payloads of `slots` by handle.
spec fn payloads<T>(slots: Seq<Slot<T>>) -> Map<usize, T> {
    Map::new(
        |key: usize| key < slots.len() && slots[key as int] is Occupied,
        |key: usize| slots[key as int]->Occupied_0,
    )
}

/// `chain` is the list of the vacant slots of `slots`: the path that the
/// links trace from `head`, which visits each vacant slot once.
#[verifier::opaque]
spec fn is_vacant_list<T>(slots: Seq<Slot<T>>, head: Option<usize>, chain: Seq<usize>) -> bool {
    &&& head == (if chain.len() > 0 {
        Some(chain[0])
    } else {
        None
    })
    &&& forall|k: int|
        0 <= k < chain.len() ==> {
            &&& (#[trigger] chain[k]) < slots.len()
            &&& slots[chain[k] as int] is Vacant
            &&& slots[chain[k] as int]->Vacant_0 == (if k + 1 < chain.len() {
                Some(chain[k + 1])
            } else {
                None
            })
        }
    &&& chain.no_duplicates()
    &&& forall|i: int| 0 <= i < slots.len() && (#[trigger] slots[i]) is Vacant ==> chain.contains(i as usize)
}

/// Two lists of the vacant slots of the same slots agree up to position `k`.
proof fn lemma_vacant_agree<T>(slots: Seq<Slot<T>>, head: Option<usize>, a: Seq<usize>, b: Seq<usize>, k: int)
    requires
        is_vacant_list(slots, head, a),
        is_vacant_list(slots, head, b),
        0 <= k,
    ensures
        k < a.len() <==> k < b.len(),
        k < a.len() ==> a[k] == b[k],
    decreases k,
{
    reveal(is_vacant_list);
    if k > 0 {
        lemma_vacant_agree(slots, head, a, b, k - 1);
        if k < a.len() {
            let _ = a[k - 1];
            let _ = b[k - 1];
        }
        if k < b.len() {
            let _ = a[k - 1];
            let _ = b[k - 1];
        }
    }
}

/// The vacant slots have one list only.
proof fn lemma_vacant_unique<T>(slots: Seq<Slot<T>>, head: Option<usize>, a: Seq<usize>, b: Seq<usize>)
    requires
        is_vacant_list(slots, head, a),
        is_vacant_list(slots, head, b),
    ensures
        a == b,
{
    lemma_vacant_agree(slots, head, a, b, a.len() as int);
    lemma_vacant_agree(slots, head, a, b, b.len() as int);
    assert forall|k: int| 0 <= k < a.len() implies a[k] == b[k] by {
        lemma_vacant_agree(slots, head, a, b, k);
    }
    assert(a =~= b);
}

/// Using the slot at the head of the list of vacant slots leaves the rest
/// of the list.
proof fn lemma_use_head<T>(slots: Seq<Slot<T>>, chain: Seq<usize>, key: usize, payload: T)
    requires
        is_vacant_list(slots, Some(key), chain),
        slots.len() <= usize::MAX,
    ensures
        key < slots.len(),
        slots[key as int] is Vacant,
        is_vacant_list(slots.update(key as int, Slot::Occupied(payload)), slots[key as int]->Vacant_0, chain.drop_first()),
{
    reveal(is_vacant_list);
    let after = slots.update(key as int, Slot::Occupied(payload));
    let rest = chain.drop_first();
    assert(chain[0] == key);
    assert forall|k: int| 0 <= k < rest.len() implies {
        &&& (#[trigger] rest[k]) < after.len()
        &&& after[rest[k] as int] is Vacant
        &&& after[rest[k] as int]->Vacant_0 == (if k + 1 < rest.len() {
            Some(rest[k + 1])
        } else {
            None
        })
    } by {
        assert(chain[k + 1] != chain[0]);
        assert(rest[k] == chain[k + 1]);
    }
    assert forall|i: int| 0 <= i < after.len() && (#[trigger] after[i]) is Vacant implies rest.contains(
        i as usize,
    ) by {
        assert(i != key);
        assert(slots[i] is Vacant);
        let w = choose|w: int| 0 <= w < chain.len() && chain[w] == i as usize;
        assert(w != 0);
        assert(rest[w - 1] == i as usize);
    }
}

/// A freed slot goes to the head of the list of vacant slots.
proof fn lemma_free_slot<T>(slots: Seq<Slot<T>>, head: Option<usize>, chain: Seq<usize>, key: usize)
    requires
        is_vacant_list(slots, head, chain),
        key < slots.len() <= usize::MAX,
        slots[key as int] is Occupied,
    ensures
        is_vacant_list(slots.update(key as int, Slot::Vacant(head)), Some(key), seq![key] + chain),
{
    reveal(is_vacant_list);
    let after = slots.update(key as int, Slot::<T>::Vacant(head));
    let longer = seq![key] + chain;
    assert forall|k: int| 0 <= k < longer.len() implies {
        &&& (#[trigger] longer[k]) < after.len()
        &&& after[longer[k] as int] is Vacant
        &&& after[longer[k] as int]->Vacant_0 == (if k + 1 < longer.len() {
            Some(longer[k + 1])
        } else {
            None
        })
    } by {
        if k > 0 {
            let _ = chain[k - 1];
        }
        if chain.len() > 0 {
            let _ = chain[0];
        }
    }
    assert forall|a: int, b: int| 0 <= a < longer.len() && 0 <= b < longer.len() && a != b implies longer[a]
        != longer[b] by {
        if a > 0 {
            let _ = chain[a - 1];
        }
        if b > 0 {
            let _ = chain[b - 1];
        }
    }
    assert forall|i: int| 0 <= i < after.len() && (#[trigger] after[i]) is Vacant implies longer.contains(
        i as usize,
    ) by {
        if i == key {
            assert(longer[0] == i as usize);
        } else {
            assert(slots[i] is Vacant);
            let w = choose|w: int| 0 <= w < chain.len() && chain[w] == i as usize;
            assert(longer[w + 1] == i as usize);
        }
    }
}

/// Slots that are vacant and occupied at the same places, with the same
/// links, have the same list of vacant slots.
proof fn lemma_same_vacant<T>(a: Seq<Slot<T>>, b: Seq<Slot<T>>, head: Option<usize>, chain: Seq<usize>)
    requires
        is_vacant_list(a, head, chain),
        a.len() == b.len(),
        forall|i: int| 0 <= i < a.len() ==> ((#[trigger] a[i]) is Vacant <==> b[i] is Vacant),
        forall|i: int| 0 <= i < a.len() && (#[trigger] a[i]) is Vacant ==> a[i]->Vacant_0 == b[i]->Vacant_0,
    ensures
        is_vacant_list(b, head, chain),
{
    reveal(is_vacant_list);
    assert forall|k: int| 0 <= k < chain.len() implies {
        &&& (#[trigger] chain[k]) < b.len()
        &&& b[chain[k] as int] is Vacant
        &&& b[chain[k] as int]->Vacant_0 == (if k + 1 < chain.len() {
            Some(chain[k + 1])
        } else {
            None
        })
    } by {
        let _ = a[chain[k] as int];
    }
    assert forall|i: int| 0 <= i < b.len() && (#[trigger] b[i]) is Vacant implies chain.contains(i as usize) by {
        let _ = a[i];
    }
}

impl<T> View for Pool<T> {
    type V = Map<usize, T>;

    closed spec fn view(&self) -> Map<usize, T> {
        payloads(self.entries@)
    }
}

impl<T> Pool<T> {
    /// The handle that the next insertion returns: the vacant slot at the
    /// head of the list, or the slot behind the last one where none is
    /// vacant.
    pub closed spec fn next_key(&self) -> usize {
        match self.next {
            Some(key) => if key < self.entries@.len() && self.entries@[key as int] is Vacant {
                key
            } else {
                self.entries@.len() as usize
            },
            None => self.entries@.len() as usize,
        }
    }

    /// The number of slots, vacant and occupied.
    pub closed spec fn capacity(&self) -> nat {
        self.entries@.len()
    }

    /// The pool's invariant: the links of the vacant slots trace a list
    /// that visits each vacant slot once.
    pub closed spec fn wf(&self) -> bool {
        exists|chain: Seq<usize>| is_vacant_list(self.entries@, self.next, chain)
    }

    /// The vacant slots in the order in which insertions will use them.
    pub closed spec fn vacant(&self) -> Seq<usize> {
        choose|chain: Seq<usize>| is_vacant_list(self.entries@, self.next, chain)
    }

    /// `chain` is the list of the vacant slots of this pool.
    proof fn lemma_vacant_is(&self, chain: Seq<usize>)
        requires
            is_vacant_list(self.entries@, self.next, chain),
        ensures
            self.wf(),
            self.vacant() == chain,
    {
        lemma_vacant_unique(self.entries@, self.next, self.vacant(), chain);
    }

    /// The vacant slots are the slots of the pool that hold no payload,
    /// each once, and the next insertion uses the first of them.
    pub proof fn lemma_vacant(&self)
        requires
            self.wf(),
        ensures
            self.vacant().no_duplicates(),
            forall|key: usize| self.vacant().contains(key) <==> key < self.capacity() && !self@.contains_key(key),
            self.next_key() == (if self.vacant().len() > 0 {
                self.vacant()[0]
            } else {
                self.capacity() as usize
            }),
    {
        reveal(is_vacant_list);
        assert(self.entries.len() == self.entries@.len());
        let chain = self.vacant();
        if chain.len() > 0 {
            let _ = chain[0];
        }
        assert forall|key: usize| chain.contains(key) <==> key < self.capacity() && !self@.contains_key(key) by {
            if chain.contains(key) {
                let k = choose|k: int| 0 <= k < chain.len() && chain[k] == key;
                let _ = chain[k];
            }
            if key < self.capacity() && !self@.contains_key(key) {
                assert(self.entries@[key as int] is Vacant);
            }
        }
    }

    /// The next insertion returns a handle that the pool does not hold.
    pub proof fn lemma_next_key(&self)
        ensures
            !self@.contains_key(self.next_key()),
            self.next_key() <= self.capacity(),
            forall|key: usize| self@.contains_key(key) ==> key < self.capacity(),
    {
        assert(self.entries.len() == self.entries@.len());
    }

    /// A pool is compact: it takes a new slot only where each of its slots
    /// is occupied.
    pub proof fn lemma_compact(&self)
        requires
            self.wf(),
            self.next_key() == self.capacity(),
        ensures
            forall|key: usize| key < self.capacity() ==> self@.contains_key(key),
    {
        reveal(is_vacant_list);
        assert(self.entries.len() == self.entries@.len());
        let chain = choose|chain: Seq<usize>| is_vacant_list(self.entries@, self.next, chain);
        if chain.len() > 0 {
            let _ = chain[0];
        }
        assert forall|key: usize| key < self.capacity() implies self@.contains_key(key) by {
            if self.entries@[key as int] is Vacant {
                assert(chain.contains(key));
            }
        }
    }

    /// A pool that holds nothing.
    pub fn new() -> (pool: Self)
        ensures
            pool@.dom() == Set::<usize>::empty(),
            pool.next_key() == 0,
            pool.capacity() == 0,
            pool.wf(),
            pool.vacant() == Seq::<usize>::empty(),
    {
        let pool = Pool { entries: Vec::new(), next: None };
        proof {
            assert(pool@.dom() =~= Set::<usize>::empty());
            assert(is_vacant_list(pool.entries@, pool.next, Seq::<usize>::empty())) by {
                reveal(is_vacant_list);
            }
            pool.lemma_vacant_is(Seq::empty());
        }
        pool
    }

    /// The vacant slot at the head of the list and the slot that follows it,
    /// where the head names a vacant slot.
    fn head(&self) -> (r: Option<(usize, Option<usize>)>)
        ensures
            match r {
                Some((key, next)) => {
                    &&& self.next == Some(key)
                    &&& key < self.entries@.len()
                    &&& self.entries@[key as int] == Slot::<T>::Vacant(next)
                    &&& key == self.next_key()
                },
                None => {
                    &&& self.next_key() == self.entries@.len()
                    &&& self.next matches Some(key) ==> !(key < self.entries@.len() && self.entries@[key as int]
                        is Vacant)
                },
            },
    {
        proof {
            assert(self.entries.len() == self.entries@.len());
        }
        match self.next {
            Some(key) => {
                if key < self.entries.len() {
                    match &self.entries[key] {
                        Slot::Vacant(next) => Some((key, *next)),
                        Slot::Occupied(_) => None,
                    }
                } else {
                    None
                }
            },
            None => None,
        }
    }

    /// Stores `payload` and returns its handle, one that the pool did not
    /// hold: the vacant slot that was freed last, or a new slot where none
    /// is vacant.
    pub fn insert(&mut self, payload: T) -> (key: usize)
        ensures
            key == old(self).next_key(),
            !old(self)@.contains_key(key),
            final(self)@ == old(self)@.insert(key, payload),
            final(self).capacity() == (if key < old(self).capacity() {
                old(self).capacity()
            } else {
                old(self).capacity() + 1
            }),
            old(self).wf() ==> final(self).wf() && final(self).vacant() == (if old(self).vacant().len() > 0 {
                old(self).vacant().drop_first()
            } else {
                old(self).vacant()
            }),
    {
        match self.head() {
            Some((key, next)) => {
                self.entries[key] = Slot::Occupied(payload);
                self.next = next;
                proof {
                    assert(self@ =~= old(self)@.insert(key, payload));
                    if old(self).wf() {
                        let chain = old(self).vacant();
                        assert(old(self).entries.len() == old(self).entries@.len());
                        lemma_use_head(old(self).entries@, chain, key, payload);
                        self.lemma_vacant_is(chain.drop_first());
                        assert(chain.len() > 0) by {
                            reveal(is_vacant_list);
                        }
                    }
                }
                key
            },
            None => {
                let key = self.entries.len();
                self.entries.push(Slot::Occupied(payload));
                self.next = None;
                proof {
                    assert(self@ =~= old(self)@.insert(key, payload));
                    if old(self).wf() {
                        reveal(is_vacant_list);
                        let chain = old(self).vacant();
                        if chain.len() > 0 {
                            let _ = chain[0];
                        }
                        assert forall|i: int| 0 <= i < self.entries@.len() implies !((
                        #[trigger] self.entries@[i]) is Vacant) by {
                            if i < key && old(self).entries@[i] is Vacant {
                                assert(chain.contains(i as usize));
                            }
                        }
                        assert(is_vacant_list(self.entries@, self.next, Seq::<usize>::empty()));
                        self.lemma_vacant_is(Seq::empty());
                        assert(chain =~= Seq::<usize>::empty());
                    }
                }
                key
            },
        }
    }

    /// The payload behind `key`, if the pool holds one.
    pub fn get(&self, key: usize) -> (r: Option<&T>)
        ensures
            r == (if self@.contains_key(key) {
                Some(&self@[key])
            } else {
                None
            }),
    {
        if key < self.entries.len() {
            match &self.entries[key] {
                Slot::Occupied(payload) => Some(payload),
                Slot::Vacant(_) => None,
            }
        } else {
            None
        }
    }

    /// Whether the pool holds a payload behind `key`.
    pub fn contains(&self, key: usize) -> (r: bool)
        ensures
            r == self@.contains_key(key),
    {
        self.get(key).is_some()
    }

    /// The payload behind `key` for writing, if the pool holds one. What is
    /// written to it is what the pool holds behind `key` afterwards; the
    /// other payloads stay as they are.
    pub fn get_mut(&mut self, key: usize) -> (r: Option<&mut T>)
        ensures
            match r {
                Some(payload) => {
                    &&& old(self)@.contains_key(key)
                    &&& *payload == old(self)@[key]
                    &&& final(self)@ == old(self)@.insert(key, *final(payload))
                },
                None => !old(self)@.contains_key(key) && final(self)@ == old(self)@,
            },
            final(self).next_key() == old(self).next_key(),
            final(self).capacity() == old(self).capacity(),
            old(self).wf() ==> final(self).wf() && final(self).vacant() == old(self).vacant(),
    {
        if !self.contains(key) {
            return None;
        }
        let ghost before = self.entries@;
        match &mut self.entries[key] {
            Slot::Occupied(payload) => {
                proof {
                    let after = before.update(key as int, Slot::Occupied(*final(payload)));
                    assert(payloads(after) =~= payloads(before).insert(key, *final(payload)));
                    if old(self).wf() {
                        let chain = old(self).vacant();
                        lemma_same_vacant(before, after, old(self).next, chain);
                        lemma_vacant_unique(
                            after,
                            old(self).next,
                            chain,
                            choose|other: Seq<usize>| is_vacant_list(after, old(self).next, other),
                        );
                    }
                }
                Some(payload)
            },
            Slot::Vacant(_) => None,
        }
    }

    /// Takes the payload behind `key` out of the pool. The slot becomes the
    /// head of the list of vacant slots. The pool must hold a payload behind
    /// `key`.
    pub fn remove(&mut self, key: usize) -> (payload: T)
        requires
            old(self)@.contains_key(key),
        ensures
            payload == old(self)@[key],
            final(self)@ == old(self)@.remove(key),
            final(self).next_key() == key,
            final(self).capacity() == old(self).capacity(),
            old(self).wf() ==> final(self).wf() && final(self).vacant() == seq![key] + old(self).vacant(),
    {
        let mut taken = Slot::Vacant(self.next);
        std::mem::swap(&mut self.entries[key], &mut taken);
        self.next = Some(key);
        proof {
            assert(self@ =~= old(self)@.remove(key));
            if old(self).wf() {
                let chain = old(self).vacant();
                assert(old(self).entries.len() == old(self).entries@.len());
                lemma_free_slot(old(self).entries@, old(self).next, chain, key);
                self.lemma_vacant_is(seq![key] + chain);
            }
        }
        match taken {
            Slot::Occupied(payload) => payload,
            Slot::Vacant(_) => vstd::pervasive::unreached(),
        }
    }

    /// A pool that holds the payloads of `pairs`, each behind its handle.
    /// Of two payloads with the same handle it holds the later one. The
    /// pool has a slot for each handle up to the greatest, so no handle may
    /// be the greatest number there is.
    #[verifier::rlimit(30)]
    pub fn from_pairs(pairs: Vec<Pair<T>>) -> (pool: Self)
        requires
            forall|i: int| 0 <= i < pairs@.len() ==> (#[trigger] pairs@[i]).0 < usize::MAX,
        ensures
            forall|key: usize| pool@.contains_key(key) <==> has_key(pairs@, key),
            forall|i: int| last_of_key(pairs@, i) ==> pool@[(#[trigger] pairs@[i]).0] == pairs@[i].1,
            pool.wf(),
            forall|i: int, j: int| 0 <= i < j < pool.vacant().len() ==> pool.vacant()[i] < pool.vacant()[j],
    {
        let ghost all = pairs@;
        let mut pairs = pairs;
        let mut entries: Vec<Slot<T>> = Vec::new();
        loop
            invariant
                pairs@ == all.take(pairs@.len() as int),
                pairs@.len() <= all.len(),
                forall|i: int| 0 <= i < all.len() ==> (#[trigger] all[i]).0 < usize::MAX,
                forall|key: usize|
                    payloads(entries@).contains_key(key) <==> exists|i: int|
                        pairs@.len() <= i < all.len() && (#[trigger] all[i]).0 == key,
                forall|i: int|
                    pairs@.len() <= i < all.len() && last_of_key(all, i) ==> payloads(entries@)[(
                    #[trigger] all[i]).0] == all[i].1,
            ensures
                pairs@.len() == 0,
                forall|key: usize|
                    payloads(entries@).contains_key(key) <==> exists|i: int|
                        0 <= i < all.len() && (#[trigger] all[i]).0 == key,
                forall|i: int|
                    0 <= i < all.len() && last_of_key(all, i) ==> payloads(entries@)[(#[trigger] all[i]).0]
                        == all[i].1,
            decreases pairs@.len(),
        {
            let ghost rest = pairs@.len() - 1;
            let ghost held = payloads(entries@);
            let (key, payload) = match pairs.pop() {
                Some(pair) => pair,
                None => {
                    break ;
                },
            };
            proof {
                assert(all[rest] == (key, payload));
                assert(pairs@ =~= all.take(rest));
            }
            while entries.len() <= key
                invariant
                    key < usize::MAX,
                    payloads(entries@) == held,
                decreases key + 1 - entries@.len(),
            {
                entries.push(Slot::Vacant(None));
                proof {
                    assert(payloads(entries@) =~= held);
                }
            }
            let vacant = match &entries[key] {
                Slot::Vacant(_) => true,
                Slot::Occupied(_) => false,
            };
            if vacant {
                entries[key] = Slot::Occupied(payload);
                proof {
                    assert(payloads(entries@) =~= held.insert(key, payload));
                    assert forall|i: int| rest < i < all.len() implies all[i].0 != key by {
                        if all[i].0 == key {
                            assert(held.contains_key(key));
                        }
                    }
                    assert(last_of_key(all, rest));
                }
            } else {
                proof {
                    assert(held.contains_key(key));
                    let later = choose|i: int| rest < i < all.len() && (#[trigger] all[i]).0 == key;
                    assert(!last_of_key(all, rest));
                }
            }
            proof {
                assert forall|k: usize| payloads(entries@).contains_key(k) <==> exists|i: int|
                    rest <= i < all.len() && (#[trigger] all[i]).0 == k by {
                    if held.contains_key(k) {
                        let i = choose|i: int| rest < i < all.len() && (#[trigger] all[i]).0 == k;
                        assert(all[i].0 == k);
                    }
                    if exists|i: int| rest <= i < all.len() && (#[trigger] all[i]).0 == k {
                        let i = choose|i: int| rest <= i < all.len() && (#[trigger] all[i]).0 == k;
                        if i > rest {
                            assert(held.contains_key(k));
                        }
                    }
                }
            }
        }
        let ghost placed = payloads(entries@);
        let ghost mut chain: Seq<usize> = Seq::empty();
        let mut next: Option<usize> = None;
        let mut at = entries.len();
        while at > 0
            invariant
                at <= entries@.len(),
                payloads(entries@) == placed,
                next == (if chain.len() > 0 {
                    Some(chain[0])
                } else {
                    None
                }),
                forall|k: int|
                    0 <= k < chain.len() ==> {
                        &&& at <= (#[trigger] chain[k]) < entries@.len()
                        &&& entries@[chain[k] as int] is Vacant
                        &&& entries@[chain[k] as int]->Vacant_0 == (if k + 1 < chain.len() {
                            Some(chain[k + 1])
                        } else {
                            None
                        })
                    },
                chain.no_duplicates(),
                forall|i: int, j: int| 0 <= i < j < chain.len() ==> chain[i] < chain[j],
                forall|i: int| at <= i < entries@.len() && (#[trigger] entries@[i]) is Vacant ==> chain.contains(
                    i as usize,
                ),
            decreases at,
        {
            at -= 1;
            let vacant = match &entries[at] {
                Slot::Vacant(_) => true,
                Slot::Occupied(_) => false,
            };
            if vacant {
                let ghost before = chain;
                let ghost slots = entries@;
                entries[at] = Slot::Vacant(next);
                next = Some(at);
                proof {
                    chain = seq![at] + before;
                    assert(payloads(entries@) =~= placed);
                    assert forall|k: int| 0 <= k < chain.len() implies {
                        &&& at <= (#[trigger] chain[k]) < entries@.len()
                        &&& entries@[chain[k] as int] is Vacant
                        &&& entries@[chain[k] as int]->Vacant_0 == (if k + 1 < chain.len() {
                            Some(chain[k + 1])
                        } else {
                            None
                        })
                    } by {
                        if k > 0 {
                            let _ = before[k - 1];
                        }
                        if before.len() > 0 {
                            let _ = before[0];
                        }
                    }
                    assert forall|a: int, b: int| 0 <= a < chain.len() && 0 <= b < chain.len() && a != b implies chain[a]
                        != chain[b] by {
                        if a > 0 {
                            let _ = before[a - 1];
                        }
                        if b > 0 {
                            let _ = before[b - 1];
                        }
                    }
                    assert forall|i: int| at <= i < entries@.len() && (#[trigger] entries@[i]) is Vacant implies chain.contains(
                        i as usize,
                    ) by {
                        if i == at {
                            assert(chain[0] == i as usize);
                        } else {
                            assert(slots[i] is Vacant);
                            let w = choose|w: int| 0 <= w < before.len() && before[w] == i as usize;
                            assert(chain[w + 1] == i as usize);
                        }
                    }
                }
            }
        }
        let pool = Pool { entries, next };
        proof {
            assert(is_vacant_list(pool.entries@, pool.next, chain)) by {
                reveal(is_vacant_list);
            }
            pool.lemma_vacant_is(chain);
        }
        pool
    }

    /// The handles and payloads of the pool, by handle upwards.
    pub fn pairs(&self) -> (pairs: Vec<(usize, &T)>)
        ensures
            forall|i: int, j: int| 0 <= i < j < pairs@.len() ==> pairs@[i].0 < pairs@[j].0,
            forall|i: int|
                0 <= i < pairs@.len() ==> self@.contains_key((#[trigger] pairs@[i]).0) && *pairs@[i].1
                    == self@[pairs@[i].0],
            forall|key: usize|
                self@.contains_key(key) ==> exists|i: int| 0 <= i < pairs@.len() && (#[trigger] pairs@[i]).0 == key,
    {
        let mut pairs: Vec<(usize, &T)> = Vec::new();
        let n = self.entries.len();
        let mut at: usize = 0;
        while at < n
            invariant
                at <= n,
                n == self.entries@.len(),
                forall|i: int| 0 <= i < pairs@.len() ==> (#[trigger] pairs@[i]).0 < at,
                forall|i: int, j: int| 0 <= i < j < pairs@.len() ==> pairs@[i].0 < pairs@[j].0,
                forall|i: int|
                    0 <= i < pairs@.len() ==> self@.contains_key((#[trigger] pairs@[i]).0) && *pairs@[i].1
                        == self@[pairs@[i].0],
                forall|key: usize|
                    self@.contains_key(key) && key < at ==> exists|i: int|
                        0 <= i < pairs@.len() && (#[trigger] pairs@[i]).0 == key,
            decreases n - at,
        {
            let ghost before = pairs@;
            match &self.entries[at] {
                Slot::Occupied(payload) => {
                    pairs.push((at, payload));
                    proof {
                        assert forall|key: usize| self@.contains_key(key) && key < at + 1 implies exists|i: int|
                            0 <= i < pairs@.len() && (#[trigger] pairs@[i]).0 == key by {
                            if key < at {
                                let i = choose|i: int| 0 <= i < before.len() && (#[trigger] before[i]).0 == key;
                                assert(pairs@[i].0 == key);
                            } else {
                                assert(pairs@[before.len() as int].0 == key);
                            }
                        }
                    }
                },
                Slot::Vacant(_) => {},
            }
            at += 1;
        }
        pairs
    }
}

impl<T: Clone> Clone for Pool<T> {
    /// A pool with the same handles, each payload cloned, and the same list
    /// of vacant slots.
    fn clone(&self) -> (r: Self)
        ensures
            r@.dom() == self@.dom(),
            forall|key: usize| self@.contains_key(key) ==> cloned::<T>(self@[key], #[trigger] r@[key]),
            r.next_key() == self.next_key(),
            r.capacity() == self.capacity(),
            self.wf() ==> r.wf() && r.vacant() == self.vacant(),
    {
        let mut entries: Vec<Slot<T>> = Vec::new();
        let n = self.entries.len();
        let mut at: usize = 0;
        while at < n
            invariant
                at <= n,
                n == self.entries@.len(),
                entries@.len() == at,
                forall|i: int| 0 <= i < at ==> ((#[trigger] entries@[i]) is Occupied <==> self.entries@[i] is Occupied),
                forall|i: int|
                    0 <= i < at && (#[trigger] self.entries@[i]) is Vacant ==> entries@[i]->Vacant_0
                        == self.entries@[i]->Vacant_0,
                forall|i: int|
                    0 <= i < at && self.entries@[i] is Occupied ==> cloned::<T>(
                        self.entries@[i]->Occupied_0,
                        (#[trigger] entries@[i])->Occupied_0,
                    ),
            decreases n - at,
        {
            let slot = match &self.entries[at] {
                Slot::Vacant(next) => Slot::Vacant(*next),
                Slot::Occupied(payload) => Slot::Occupied(payload.clone()),
            };
            entries.push(slot);
            at += 1;
        }
        let r = Pool { entries, next: self.next };
        proof {
            assert(r@.dom() =~= self@.dom());
            if self.wf() {
                let chain = self.vacant();
                lemma_same_vacant(self.entries@, r.entries@, self.next, chain);
                r.lemma_vacant_is(chain);
            }
        }
        r
    }
}

} // verus!
