//! Whether given slots, length and free list head are the parts of an arena.

use super::model::{chain_links, is_free_list, lemma_chain_unique, occupied_count, raw_wf};
use super::Entry;
use vstd::prelude::*;

verus! {

/// The number of `false` among `flags`.
spec fn unset_count(flags: Seq<bool>) -> nat
    decreases flags.len(),
{
    if flags.len() == 0 {
        0
    } else {
        unset_count(flags.drop_last()) + if flags.last() {
            0nat
        } else {
            1nat
        }
    }
}

/// Setting a flag leaves one flag less unset.
proof fn lemma_unset_count_set(flags: Seq<bool>, i: int)
    requires
        0 <= i < flags.len(),
        !flags[i],
    ensures
        unset_count(flags.update(i, true)) + 1 == unset_count(flags),
    decreases flags.len(),
{
    let updated = flags.update(i, true);
    if i == flags.len() - 1 {
        assert(updated.drop_last() =~= flags.drop_last());
    } else {
        assert(updated.drop_last() =~= flags.drop_last().update(i, true));
        lemma_unset_count_set(flags.drop_last(), i);
    }
}

/// The first `walked.len()` steps along the free links from `head`: each
/// slot on the way is free and names the next one, the last names `cur`.
spec fn walked_links<T>(slots: Seq<Entry<T>>, head: Option<usize>, walked: Seq<usize>, cur: Option<usize>) -> bool {
    &&& head == (if walked.len() > 0 {
        Some(walked[0])
    } else {
        cur
    })
    &&& forall|k: int|
        0 <= k < walked.len() ==> {
            &&& (#[trigger] walked[k]) < slots.len()
            &&& slots[walked[k] as int] is Free
            &&& slots[walked[k] as int]->next_free == (if k + 1 < walked.len() {
                Some(walked[k + 1])
            } else {
                cur
            })
        }
}

/// A walk along the free links is the beginning of every path that they
/// trace to the end.
proof fn lemma_walk_is_prefix<T>(
    slots: Seq<Entry<T>>,
    head: Option<usize>,
    walked: Seq<usize>,
    cur: Option<usize>,
    chain: Seq<usize>,
    k: int,
)
    requires
        walked_links(slots, head, walked, cur),
        chain_links(slots, head, chain),
        0 <= k <= walked.len(),
    ensures
        k <= chain.len(),
        k < walked.len() ==> k < chain.len() && chain[k] == walked[k],
        k == walked.len() ==> cur == (if k < chain.len() {
            Some(chain[k])
        } else {
            None
        }),
    decreases k,
{
    if k > 0 {
        lemma_walk_is_prefix(slots, head, walked, cur, chain, k - 1);
        let _ = walked[k - 1];
        let _ = chain[k - 1];
    }
}

/// Whether `entries`, `length` and `next_free` are the parts of a
/// well-formed arena.
#[verifier::rlimit(30)]
pub fn check_raw<T>(entries: &Vec<Entry<T>>, length: usize, next_free: Option<usize>) -> (ok: bool)
    ensures
        ok == raw_wf(entries@, length, next_free),
{
    let n = entries.len();
    let mut count: usize = 0;
    let mut i: usize = 0;
    while i < n
        invariant
            i <= n,
            n == entries@.len(),
            count == occupied_count(entries@.take(i as int)),
            count <= i,
        decreases n - i,
    {
        proof {
            assert(entries@.take(i + 1).drop_last() =~= entries@.take(i as int));
        }
        match &entries[i] {
            Entry::Occupied { .. } => {
                count += 1;
            },
            Entry::Free { .. } => {},
        }
        i += 1;
    }
    proof {
        assert(entries@.take(n as int) =~= entries@);
    }
    if count != length {
        return false;
    }
    let mut visited: Vec<bool> = Vec::new();
    let mut j: usize = 0;
    while j < n
        invariant
            j <= n,
            visited@.len() == j,
            forall|k: int| 0 <= k < j ==> !visited@[k],
        decreases n - j,
    {
        visited.push(false);
        j += 1;
    }
    let ghost mut walked: Seq<usize> = Seq::empty();
    let mut cur = next_free;
    loop
        invariant
            n == entries@.len(),
            visited@.len() == n,
            walked_links(entries@, next_free, walked, cur),
            walked.no_duplicates(),
            forall|k: int| 0 <= k < n ==> (#[trigger] visited@[k] <==> walked.contains(k as usize)),
        ensures
            cur is None,
            n == entries@.len(),
            visited@.len() == n,
            walked_links(entries@, next_free, walked, cur),
            walked.no_duplicates(),
            forall|k: int| 0 <= k < n ==> (#[trigger] visited@[k] <==> walked.contains(k as usize)),
        decreases unset_count(visited@),
    {
        let at = match cur {
            Some(at) => at,
            None => {
                break ;
            },
        };
        proof {
            if exists|chain: Seq<usize>| is_free_list(entries@, next_free, chain) {
                reveal(is_free_list);
                let chain = choose|chain: Seq<usize>| is_free_list(entries@, next_free, chain);
                lemma_walk_is_prefix(entries@, next_free, walked, cur, chain, walked.len() as int);
                let here = walked.len() as int;
                assert(chain[here] == at);
                if at < n && walked.contains(at) {
                    let w = choose|w: int| 0 <= w < walked.len() && walked[w] == at;
                    lemma_walk_is_prefix(entries@, next_free, walked, cur, chain, w);
                    assert(chain[w] == chain[here]);
                }
            }
        }
        if at >= n {
            return false;
        }
        let next = match &entries[at] {
            Entry::Free { next_free, .. } => *next_free,
            Entry::Occupied { .. } => {
                return false;
            },
        };
        if visited[at] {
            return false;
        }
        proof {
            lemma_unset_count_set(visited@, at as int);
        }
        let ghost before = walked;
        visited.set(at, true);
        proof {
            walked = walked.push(at);
            assert forall|k: int| 0 <= k < n implies (#[trigger] visited@[k] <==> walked.contains(k as usize)) by {
                if before.contains(k as usize) {
                    let w = choose|w: int| 0 <= w < before.len() && before[w] == k as usize;
                    assert(walked[w] == k as usize);
                }
                if k == at {
                    assert(walked[before.len() as int] == at);
                }
                if walked.contains(k as usize) {
                    let w = choose|w: int| 0 <= w < walked.len() && walked[w] == k as usize;
                    if w < before.len() {
                        assert(before[w] == k as usize);
                    }
                }
            }
            assert forall|a: int, b: int| 0 <= a < walked.len() && 0 <= b < walked.len() && a != b implies walked[a]
                != walked[b] by {
                if a < before.len() {
                    assert(before.contains(walked[a]));
                }
                if b < before.len() {
                    assert(before.contains(walked[b]));
                }
            }
            assert forall|k: int| 0 <= k < walked.len() implies {
                &&& (#[trigger] walked[k]) < entries@.len()
                &&& entries@[walked[k] as int] is Free
                &&& entries@[walked[k] as int]->next_free == (if k + 1 < walked.len() {
                    Some(walked[k + 1])
                } else {
                    next
                })
            } by {
                if k < before.len() {
                    let _ = before[k];
                }
            }
            if before.len() > 0 {
                let _ = before[0];
            }
        }
        cur = next;
    }
    let mut k: usize = 0;
    while k < n
        invariant
            k <= n,
            n == entries@.len(),
            visited@.len() == n,
            cur is None,
            walked_links(entries@, next_free, walked, cur),
            walked.no_duplicates(),
            forall|m: int| 0 <= m < n ==> (#[trigger] visited@[m] <==> walked.contains(m as usize)),
            forall|m: int| 0 <= m < k && (#[trigger] entries@[m]) is Free ==> walked.contains(m as usize),
        decreases n - k,
    {
        let free = match &entries[k] {
            Entry::Free { .. } => true,
            Entry::Occupied { .. } => false,
        };
        if free && !visited[k] {
            proof {
                if exists|chain: Seq<usize>| is_free_list(entries@, next_free, chain) {
                    reveal(is_free_list);
                    let chain = choose|chain: Seq<usize>| is_free_list(entries@, next_free, chain);
                    lemma_chain_unique(entries@, next_free, walked, chain);
                    let _ = entries@[k as int];
                }
            }
            return false;
        }
        k += 1;
    }
    proof {
        reveal(is_free_list);
        assert(is_free_list(entries@, next_free, walked));
    }
    true
}

} // verus!
