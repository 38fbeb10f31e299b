//! What holds of handles over any run of insertions and removals.

use super::{stored_generation, GenArena, Index};
use vstd::prelude::*;

verus! {

impl<T> GenArena<T> {
    /// `post` is this arena after `remove(index)`, for an `index` that
    /// `remove` takes.
    pub open spec fn removal(&self, index: Index, post: &Self) -> bool {
        (self.live(index) ==> index.generation < u64::MAX) && self.removes(index, post)
    }

    /// `post` is this arena, well formed, after one insertion or one
    /// removal.
    pub open spec fn step(&self, post: &Self) -> bool {
        &&& self.wf()
        &&& {
            ||| exists|value: T| #[trigger] self.pushes(value, post)
            ||| exists|index: Index| #[trigger] self.removal(index, post)
        }
    }

    /// `trace` is a run of insertions and removals: each arena but the first
    /// is the one before it after one insertion or one removal.
    pub open spec fn churn(trace: Seq<Self>) -> bool {
        forall|k: int| 0 <= k < trace.len() - 1 ==> (#[trigger] trace[k]).step(&trace[k + 1])
    }

    /// An insertion leaves the generation of each slot as it was; the slots
    /// that it adds start at generation 0.
    pub proof fn law_push_keeps_generations(&self, value: T, post: &Self, i: int)
        requires
            self.wf(),
            self.pushes(value, post),
            0 <= i < post@.len(),
        ensures
            stored_generation(post@[i]) == (if i < self@.len() {
                stored_generation(self@[i])
            } else {
                0
            }),
    {
        self.lemma_head();
    }

    /// A removal raises the generation of the slot whose value it takes out
    /// by exactly one, and leaves the generation of each other slot as it
    /// was.
    pub proof fn law_remove_raises_generation(&self, index: Index, post: &Self, i: int)
        requires
            self.removal(index, post),
            0 <= i < self@.len(),
        ensures
            stored_generation(post@[i]) == stored_generation(self@[i]) + (if self.live(index) && i
                == index.index {
                1int
            } else {
                0int
            }),
    {
    }

    /// No two live handles name the same slot: handles that are live
    /// together and differ, differ in their index.
    pub proof fn law_live_handles_distinct(&self, a: Index, b: Index)
        requires
            self.live(a),
            self.live(b),
            a != b,
        ensures
            a.index != b.index,
    {
    }

    /// A handle whose value was removed is not live, whatever slot it names.
    pub proof fn law_retired_not_live(&self, index: Index)
        requires
            self.retired(index),
        ensures
            !self.live(index),
    {
    }

    /// One insertion or removal keeps a retired handle retired, and leaves a
    /// live handle live or retires it.
    pub proof fn lemma_step(&self, post: &Self, index: Index)
        requires
            self.step(post),
        ensures
            self.retired(index) ==> post.retired(index),
            self.live(index) ==> post.live(index) || post.retired(index),
    {
        self.lemma_head();
        if exists|value: T| #[trigger] self.pushes(value, post) {
            let value = choose|value: T| #[trigger] self.pushes(value, post);
            assert(self.pushes(value, post));
            if index.index < self@.len() {
                let _ = post@[index.index as int];
            }
        } else {
            let removed = choose|removed: Index| #[trigger] self.removal(removed, post);
            assert(self.removes(removed, post));
            if index.index < self@.len() {
                let _ = post@[index.index as int];
            }
        }
    }

    /// Over any run of insertions and removals a handle that was live stays
    /// live until it is retired.
    pub proof fn law_live_until_retired(trace: Seq<Self>, from: int, to: int, index: Index)
        requires
            Self::churn(trace),
            0 <= from <= to < trace.len(),
            trace[from].live(index),
        ensures
            trace[to].live(index) || trace[to].retired(index),
        decreases to - from,
    {
        if from < to {
            Self::law_live_until_retired(trace, from, to - 1, index);
            trace[to - 1].lemma_step(&trace[to], index);
        }
    }

    /// Over any run of insertions and removals a handle that was retired is
    /// never live again, though its slot is used again.
    pub proof fn law_stale_never_live(trace: Seq<Self>, from: int, to: int, index: Index)
        requires
            Self::churn(trace),
            0 <= from <= to < trace.len(),
            trace[from].retired(index),
        ensures
            trace[to].retired(index),
            !trace[to].live(index),
        decreases to - from,
    {
        if from < to {
            Self::law_stale_never_live(trace, from, to - 1, index);
            trace[to - 1].lemma_step(&trace[to], index);
        }
    }

    /// A handle that was live and is live no more is retired for good: it
    /// is live at no later time of the run.
    pub proof fn law_removed_never_returns(trace: Seq<Self>, was: int, gone: int, later: int, index: Index)
        requires
            Self::churn(trace),
            0 <= was <= gone <= later < trace.len(),
            trace[was].live(index),
            !trace[gone].live(index),
        ensures
            !trace[later].live(index),
    {
        Self::law_live_until_retired(trace, was, gone, index);
        Self::law_stale_never_live(trace, gone, later, index);
    }

    /// An insertion issues a handle that was neither live nor retired: it
    /// differs from every handle that was issued before and names a record
    /// or named one.
    pub proof fn law_push_fresh(&self, value: T, post: &Self)
        requires
            self.wf(),
            self.pushes(value, post),
        ensures
            !self.live(self.next_handle()),
            !self.retired(self.next_handle()),
            post.live(self.next_handle()),
            post.value_of(self.next_handle()) == value,
    {
        self.lemma_head();
    }

    /// After the removal of a live handle the next insertion uses the
    /// handle's slot, at the next generation.
    pub proof fn law_reuse(&self, index: Index, removed: &Self, value: T, post: &Self)
        requires
            self.live(index),
            self.removal(index, removed),
            removed.pushes(value, post),
        ensures
            removed.next_handle() == (Index { index: index.index, generation: (index.generation + 1) as u64 }),
            post.live(removed.next_handle()),
            post.value_of(removed.next_handle()) == value,
            removed.next_handle().index == index.index,
            removed.next_handle().generation > index.generation,
    {
    }
}

} // verus!
