use super::{lemma_occupied_count_bound, lemma_occupied_from_count, occupied_count, occupied_from, Entry, Index};
use vstd::prelude::*;

verus! {

/// Walks the occupied slots of an arena in index order.
pub struct Iter<'a, T> {
    pub(super) entries: &'a [Entry<T>],
    /// The number of occupied slots in all.
    pub(super) tot_length: usize,
    pub(super) seen: usize,
    pub(super) curr: usize,
}

/// Walks the occupied slots of an arena in index order and lends each value
/// for writing until the next step.
pub struct IterMut<'a, T> {
    pub entries: &'a mut [Entry<T>],
    /// The number of occupied slots in all.
    pub tot_length: usize,
    pub curr: usize,
    pub seen: usize,
}

/// Walks the values of an arena in index order and lends each for writing
/// until the next step.
pub struct ValuesMut<'a, T> {
    pub inner: IterMut<'a, T>,
}

impl<'a, T> Clone for Iter<'a, T> {
    /// An iterator at the same place over the same slots.
    fn clone(&self) -> (it: Self)
        ensures
            it.slots() == self.slots(),
            it.position() == self.position(),
            it.wf() == self.wf(),
    {
        Iter { entries: self.entries, tot_length: self.tot_length, seen: self.seen, curr: self.curr }
    }
}

impl<'a, T> Iter<'a, T> {
    /// The slots that the iterator walks over.
    pub closed spec fn slots(&self) -> Seq<Entry<T>> {
        self.entries@
    }

    /// The index of the slot that is looked at next.
    pub closed spec fn position(&self) -> int {
        self.curr as int
    }

    /// The handles and values that are still to come, in order.
    pub open spec fn view(&self) -> Seq<(Index, T)> {
        occupied_from(self.slots(), self.position())
    }

    /// The iterator's invariant: its place lies within the slots, and it
    /// has counted the occupied slots before its place and in all.
    pub closed spec fn wf(&self) -> bool {
        &&& self.curr <= self.entries@.len()
        &&& self.seen == occupied_count(self.entries@.take(self.curr as int))
        &&& self.tot_length == occupied_count(self.entries@)
    }

    /// An iterator at the first of `entries`.
    pub(super) fn new(entries: &'a [Entry<T>], tot_length: usize) -> (it: Self)
        requires
            tot_length == occupied_count(entries@),
        ensures
            it.wf(),
            it.slots() == entries@,
            it.position() == 0,
    {
        proof {
            assert(entries@.take(0) =~= Seq::empty());
        }
        Iter { entries, tot_length, seen: 0, curr: 0 }
    }

    /// The next occupied slot's handle and value.
    pub fn next(&mut self) -> (r: Option<(Index, &'a T)>)
        requires
            old(self).wf(),
        ensures
            final(self).wf(),
            final(self).slots() == old(self).slots(),
            match r {
                Some((index, value)) => {
                    &&& old(self)@.len() > 0
                    &&& (index, *value) == old(self)@[0]
                    &&& final(self)@ == old(self)@.drop_first()
                    &&& old(self).position() <= index.index < final(self).position()
                },
                None => old(self)@.len() == 0 && final(self)@.len() == 0,
            },
    {
        let n = self.entries.len();
        let mut i = self.curr;
        let mut found = false;
        while i < n && !found
            invariant
                self.curr <= i <= n,
                n == self.entries@.len(),
                occupied_from(self.entries@, i as int) == occupied_from(self.entries@, self.curr as int),
                occupied_count(self.entries@.take(i as int)) == occupied_count(
                    self.entries@.take(self.curr as int),
                ),
                found ==> i < n && self.entries@[i as int] is Occupied,
            decreases n - i + (if found { 0int } else { 1int }),
        {
            match &self.entries[i] {
                Entry::Occupied { .. } => {
                    found = true;
                },
                Entry::Free { .. } => {
                    proof {
                        assert(self.entries@.take(i + 1).drop_last() =~= self.entries@.take(i as int));
                    }
                    i += 1;
                },
            }
        }
        if found {
            proof {
                assert(self.entries@.take(i + 1).drop_last() =~= self.entries@.take(i as int));
                lemma_occupied_count_bound(self.entries@.take(i + 1));
                assert(occupied_from(self.entries@, i as int).drop_first() =~= occupied_from(
                    self.entries@,
                    i + 1,
                ));
            }
            self.curr = i + 1;
            self.seen += 1;
            match &self.entries[i] {
                Entry::Occupied { generation, value } => Some((Index::new(i, *generation), value)),
                Entry::Free { .. } => None,
            }
        } else {
            self.curr = n;
            None
        }
    }

    /// The number of items still to come, as a lower and an upper bound.
    pub fn size_hint(&self) -> (r: (usize, Option<usize>))
        requires
            self.wf(),
        ensures
            r.0 == self@.len(),
            r.1 == Some(r.0),
    {
        proof {
            lemma_occupied_from_count(self.entries@, self.curr as int);
        }
        let remaining = if self.tot_length > self.seen {
            self.tot_length - self.seen
        } else {
            0
        };
        (remaining, Some(remaining))
    }

    /// The number of occupied slots that the iterator walks over in all.
    pub fn len(&self) -> (n: usize)
        requires
            self.wf(),
        ensures
            n == occupied_count(self.slots()),
    {
        self.tot_length
    }
}

impl<'a, T> IterMut<'a, T> {
    /// The slots that the iterator walks over, as they are now.
    pub closed spec fn slots(&self) -> Seq<Entry<T>> {
        self.entries@
    }

    /// The index of the slot that is looked at next.
    pub closed spec fn position(&self) -> int {
        self.curr as int
    }

    /// The handles and values that are still to come, in order.
    pub open spec fn view(&self) -> Seq<(Index, T)> {
        occupied_from(self.slots(), self.position())
    }

    /// The iterator's invariant: its place lies within the slots, and it
    /// has counted the occupied slots before its place and in all.
    pub closed spec fn wf(&self) -> bool {
        &&& self.curr <= self.entries@.len()
        &&& self.seen == occupied_count(self.entries@.take(self.curr as int))
        &&& self.tot_length == occupied_count(self.entries@)
    }

    /// An iterator at the first of `entries`.
    pub(super) fn new(entries: &'a mut [Entry<T>], tot_length: usize) -> (it: Self)
        requires
            tot_length == occupied_count(old(entries)@),
        ensures
            it.wf(),
            it.slots() == old(entries)@,
            it.position() == 0,
            final(it.entries)@ == final(entries)@,
    {
        proof {
            assert(entries@.take(0) =~= Seq::empty());
        }
        IterMut { entries, tot_length, curr: 0, seen: 0 }
    }

    /// The next occupied slot's handle, and its value for writing. What is
    /// written stays in the slot; the slots still to come are not touched.
    pub fn next(&mut self) -> (r: Option<(Index, &mut T)>)
        requires
            old(self).wf(),
        ensures
            final(self).wf(),
            final(final(self).entries)@ == final(old(self).entries)@,
            match r {
                Some((index, value)) => {
                    &&& old(self)@.len() > 0
                    &&& (index, *value) == old(self)@[0]
                    &&& final(self)@ == old(self)@.drop_first()
                    &&& old(self).position() <= index.index < final(self).position()
                    &&& final(self).slots() == old(self).slots().update(
                        index.index as int,
                        Entry::Occupied { generation: index.generation, value: *final(value) },
                    )
                },
                None => {
                    &&& old(self)@.len() == 0
                    &&& final(self)@.len() == 0
                    &&& final(self).slots() == old(self).slots()
                },
            },
    {
        let n = self.entries.len();
        let mut i = self.curr;
        let mut found = false;
        while i < n && !found
            invariant
                self.curr <= i <= n,
                n == self.entries@.len(),
                occupied_from(self.entries@, i as int) == occupied_from(self.entries@, self.curr as int),
                occupied_count(self.entries@.take(i as int)) == occupied_count(
                    self.entries@.take(self.curr as int),
                ),
                found ==> i < n && self.entries@[i as int] is Occupied,
            decreases n - i + (if found { 0int } else { 1int }),
        {
            match &self.entries[i] {
                Entry::Occupied { .. } => {
                    found = true;
                },
                Entry::Free { .. } => {
                    proof {
                        assert(self.entries@.take(i + 1).drop_last() =~= self.entries@.take(i as int));
                    }
                    i += 1;
                },
            }
        }
        if found {
            let ghost before = self.entries@;
            proof {
                assert(before.take(i + 1).drop_last() =~= before.take(i as int));
                lemma_occupied_count_bound(before.take(i + 1));
                assert(occupied_from(before, i as int).drop_first() =~= occupied_from(before, i + 1));
            }
            self.curr = i + 1;
            self.seen += 1;
            match &mut self.entries[i] {
                Entry::Occupied { generation, value } => {
                    let g = *generation;
                    proof {
                        let after = before.update(
                            i as int,
                            Entry::Occupied { generation: g, value: *final(value) },
                        );
                        assert(after.take(i + 1) =~= before.take(i + 1).update(i as int, after[i as int]));
                        super::lemma_occupied_count_update(before.take(i + 1), i as int, after[i as int]);
                        super::lemma_occupied_count_update(before, i as int, after[i as int]);
                        super::lemma_occupied_from_frame(before, after, i + 1);
                    }
                    Some((Index::new(i, g), value))
                },
                Entry::Free { .. } => None,
            }
        } else {
            self.curr = n;
            None
        }
    }

    /// The number of items still to come, as a lower and an upper bound.
    pub fn size_hint(&self) -> (r: (usize, Option<usize>))
        requires
            self.wf(),
        ensures
            r.0 == self@.len(),
            r.1 == Some(r.0),
    {
        proof {
            lemma_occupied_from_count(self.entries@, self.curr as int);
        }
        let remaining = if self.tot_length > self.seen {
            self.tot_length - self.seen
        } else {
            0
        };
        (remaining, Some(remaining))
    }

    /// The number of occupied slots that the iterator walks over in all.
    pub fn len(&self) -> (n: usize)
        requires
            self.wf(),
        ensures
            n == occupied_count(self.slots()),
    {
        self.tot_length
    }
}

impl<'a, T> ValuesMut<'a, T> {
    /// The next occupied slot's value, for writing.
    pub fn next(&mut self) -> (r: Option<&mut T>)
        requires
            old(self).inner.wf(),
        ensures
            final(self).inner.wf(),
            final(final(self).inner.entries)@ == final(old(self).inner.entries)@,
            match r {
                Some(value) => {
                    let first = old(self).inner@[0];
                    &&& old(self).inner@.len() > 0
                    &&& *value == first.1
                    &&& final(self).inner@ == old(self).inner@.drop_first()
                    &&& final(self).inner.slots() == old(self).inner.slots().update(
                        first.0.index as int,
                        Entry::Occupied { generation: first.0.generation, value: *final(value) },
                    )
                },
                None => {
                    &&& old(self).inner@.len() == 0
                    &&& final(self).inner@.len() == 0
                    &&& final(self).inner.slots() == old(self).inner.slots()
                },
            },
    {
        match self.inner.next() {
            Some((_, value)) => Some(value),
            None => None,
        }
    }
}

} // verus!
