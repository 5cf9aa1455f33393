//! Lazy splitting of a sequence of items into consecutive chunks of a fixed
//! size. Chunks can be consumed in any order: items of a chunk that is passed
//! over are buffered until that chunk asks for them, unless it was dropped.

use std::collections::VecDeque;
use vstd::arithmetic::div_mod::{
    lemma_fundamental_div_mod, lemma_fundamental_div_mod_converse_div,
    lemma_fundamental_div_mod_converse_mod,
};
use vstd::prelude::*;

verus! {

/// The key that the chunk key function gives the item at position `p`.
pub open spec fn key_at(size: usize, p: int) -> int {
    if size == 0 {
        1
    } else {
        p / (size as int)
    }
}

/// The counter that the chunk key function holds after the item at position `p`.
pub open spec fn index_at(size: usize, p: int) -> int {
    if size == 0 {
        p + 1
    } else {
        p % (size as int) + 1
    }
}

/// The chunk that the item at position `p` belongs to.
pub open spec fn group_of(size: usize, p: int) -> int {
    if size == 0 {
        0
    } else {
        p / (size as int)
    }
}

/// The position at which chunk `j` starts in a sequence of `n` items.
pub open spec fn group_start(size: usize, n: int, j: int) -> int {
    if j <= 0 {
        0
    } else if size == 0 {
        n
    } else if j * size < n {
        j * size
    } else {
        n
    }
}

/// Chunk `j` of `items`: the items from position `j * size` up to (not
/// including) `(j + 1) * size`. A `size` of zero puts every item in chunk 0.
pub open spec fn chunk_of<T>(items: Seq<T>, size: usize, j: int) -> Seq<T> {
    items.subrange(group_start(size, items.len() as int, j), group_start(size, items.len() as int, j + 1))
}

/// `a` is a final segment of `b`.
pub open spec fn is_suffix<T>(a: Seq<T>, b: Seq<T>) -> bool {
    a.len() <= b.len() && a =~= b.subrange(b.len() - a.len(), b.len() as int)
}

proof fn lemma_div_bounds(p: int, s: int)
    requires
        s > 0,
        p >= 0,
    ensures
        (p / s) * s <= p < (p / s) * s + s,
        p / s >= 0,
        p % s == p - (p / s) * s,
{
    lemma_fundamental_div_mod(p, s);
    assert(s * (p / s) == (p / s) * s) by (nonlinear_arith);
    assert(0 <= p % s < s) by {
        vstd::arithmetic::div_mod::lemma_mod_pos_bound(p, s);
    }
    assert(p / s >= 0) by {
        vstd::arithmetic::div_mod::lemma_div_pos_is_pos(p, s);
    }
}

proof fn lemma_div_unique(p: int, s: int, j: int)
    requires
        s > 0,
        j * s <= p < j * s + s,
    ensures
        p / s == j,
        p % s == p - j * s,
{
    lemma_fundamental_div_mod_converse_div(p, s, j, p - j * s);
    lemma_fundamental_div_mod_converse_mod(p, s, j, p - j * s);
}

/// Chunk starts never decrease and never pass the end.
pub proof fn lemma_group_start_monotone(size: usize, n: int, i: int, j: int)
    requires
        0 <= n,
        i <= j,
    ensures
        0 <= group_start(size, n, i) <= group_start(size, n, j) <= n,
{
    if size > 0 && i > 0 {
        assert(i * size <= j * size) by (nonlinear_arith)
            requires
                0 < i <= j,
                size > 0,
        ;
    }
    if size > 0 && j > 0 {
        assert(j * size > 0) by (nonlinear_arith)
            requires
                j > 0,
                size > 0,
        ;
    }
}

/// Every item lies in the chunk that `group_of` names.
pub proof fn lemma_group_of_bounds(size: usize, n: int, p: int)
    requires
        0 <= p < n,
    ensures
        group_of(size, p) >= 0,
        group_start(size, n, group_of(size, p)) <= p < group_start(size, n, group_of(size, p) + 1),
{
    if size > 0 {
        let s = size as int;
        lemma_div_bounds(p, s);
        let q = p / s;
        assert((q + 1) * s == q * s + s) by (nonlinear_arith);
        if q > 0 {
            assert(q * s > 0) by (nonlinear_arith)
                requires
                    q > 0,
                    s > 0,
            ;
        }
    }
}

/// An item that lies between the bounds of chunk `j` belongs to chunk `j`.
pub proof fn lemma_group_of_unique(size: usize, n: int, p: int, j: int)
    requires
        0 <= p < n,
        0 <= j,
        group_start(size, n, j) <= p < group_start(size, n, j + 1),
    ensures
        group_of(size, p) == j,
{
    if size > 0 {
        let s = size as int;
        assert((j + 1) * s == j * s + s) by (nonlinear_arith);
        if j > 0 {
            assert(j * s > 0) by (nonlinear_arith)
                requires
                    j > 0,
                    s > 0,
            ;
        }
        assert(j * s <= p) by {
            if j == 0 {
                assert(j * s == 0) by (nonlinear_arith)
                    requires
                        j == 0,
                ;
            } else if j * s >= n {
                assert(group_start(size, n, j) == n);
            } else {
                assert(group_start(size, n, j) == j * s);
            }
        }
        assert(p < j * s + s) by {
            if (j + 1) * s >= n {
                assert(group_start(size, n, j + 1) == n);
            } else {
                assert(group_start(size, n, j + 1) == (j + 1) * s);
            }
        }
        lemma_div_unique(p, s, j);
    } else {
        if j > 0 {
            assert(false);
        }
    }
}

/// The key changes between two neighbouring items exactly when the second
/// one starts a new chunk, and chunks then advance by one.
pub proof fn lemma_key_change(size: usize, n: int, p: int)
    requires
        1 <= p < n,
    ensures
        group_of(size, p) == group_of(size, p - 1) || group_of(size, p) == group_of(size, p - 1) + 1,
        (key_at(size, p) != key_at(size, p - 1)) == (group_of(size, p) == group_of(size, p - 1) + 1),
        (group_of(size, p) == group_of(size, p - 1) + 1) == (group_start(size, n, group_of(size, p)) == p),
        key_at(size, p) != key_at(size, p - 1) ==> key_at(size, p) == key_at(size, p - 1) + 1,
{
    lemma_group_of_bounds(size, n, p);
    lemma_group_of_bounds(size, n, p - 1);
    if size > 0 {
        let s = size as int;
        lemma_div_bounds(p, s);
        lemma_div_bounds(p - 1, s);
        let q = p / s;
        let q1 = (p - 1) / s;
        if q1 >= q + 1 {
            assert(q1 * s >= q * s + s) by (nonlinear_arith)
                requires
                    q1 >= q + 1,
                    s > 0,
            ;
        }
        if q >= q1 + 2 {
            assert(q * s >= q1 * s + 2 * s) by (nonlinear_arith)
                requires
                    q >= q1 + 2,
                    s > 0,
            ;
        }
        if q > 0 {
            assert(q * s > 0) by (nonlinear_arith)
                requires
                    q > 0,
                    s > 0,
            ;
        }
    }
}


/// The first `j` chunks of `items`, one after the other.
pub open spec fn chunks_prefix<T>(items: Seq<T>, size: usize, j: nat) -> Seq<T>
    decreases j,
{
    if j == 0 {
        Seq::empty()
    } else {
        chunks_prefix(items, size, (j - 1) as nat) + chunk_of(items, size, j - 1)
    }
}

/// The number of chunks of `n` items.
pub open spec fn chunk_count(size: usize, n: nat) -> nat {
    if n == 0 {
        0
    } else if size == 0 {
        1
    } else {
        ((n + size - 1) / (size as int)) as nat
    }
}

/// The first `j` chunks, put one after the other, are the items up to the
/// start of chunk `j`: chunks are consecutive and skip nothing.
pub proof fn lemma_chunks_prefix<T>(items: Seq<T>, size: usize, j: nat)
    ensures
        chunks_prefix(items, size, j) == items.subrange(0, group_start(size, items.len() as int, j as int)),
    decreases j,
{
    if j > 0 {
        lemma_chunks_prefix(items, size, (j - 1) as nat);
        lemma_group_start_monotone(size, items.len() as int, j - 1, j as int);
        assert(chunks_prefix(items, size, j) =~= items.subrange(
            0,
            group_start(size, items.len() as int, j as int),
        ));
    } else {
        assert(items.subrange(0, 0) =~= Seq::<T>::empty());
    }
}

/// All chunks, put one after the other, give back the items.
pub proof fn lemma_chunks_cover<T>(items: Seq<T>, size: usize)
    ensures
        chunks_prefix(items, size, chunk_count(size, items.len())) == items,
        forall|j: int|
            j >= chunk_count(size, items.len()) ==> #[trigger] chunk_of(items, size, j).len() == 0,
{
    let n = items.len() as int;
    let m = chunk_count(size, items.len());
    lemma_chunks_prefix(items, size, m);
    if n > 0 && size > 0 {
        let s = size as int;
        lemma_div_bounds(n + s - 1, s);
        assert(m * s >= n) by (nonlinear_arith)
            requires
                m == (n + s - 1) / s,
                (n + s - 1) < ((n + s - 1) / s) * s + s,
        ;
        assert(m > 0) by (nonlinear_arith)
            requires
                m * s >= n,
                n > 0,
                m >= 0,
        ;
    }
    assert(group_start(size, n, m as int) == n);
    assert(items.subrange(0, n) =~= items);
    assert forall|j: int| j >= m implies #[trigger] chunk_of(items, size, j).len() == 0 by {
        lemma_group_start_monotone(size, n, m as int, j);
        lemma_group_start_monotone(size, n, j, j + 1);
    }
}

/// Every chunk before the last holds exactly `size` items, and the last one
/// holds at least one.
pub proof fn lemma_chunk_len<T>(items: Seq<T>, size: usize, j: int)
    requires
        size > 0,
        0 <= j < chunk_count(size, items.len()),
    ensures
        j + 1 < chunk_count(size, items.len()) ==> chunk_of(items, size, j).len() == size,
        chunk_of(items, size, j).len() >= 1,
        chunk_of(items, size, j).len() <= size,
{
    let n = items.len() as int;
    let s = size as int;
    let m = chunk_count(size, items.len()) as int;
    lemma_div_bounds(n + s - 1, s);
    assert(j * s < n) by (nonlinear_arith)
        requires
            j < m,
            m == (n + s - 1) / s,
            m * s <= n + s - 1,
            s > 0,
    ;
    if j + 1 < m {
        assert((j + 1) * s < n) by (nonlinear_arith)
            requires
                j + 1 < m,
                m * s <= n + s - 1,
                s > 0,
                j >= 0,
        ;
    }
    assert((j + 1) * s == j * s + s) by (nonlinear_arith);
    if j > 0 {
        assert(j * s > 0) by (nonlinear_arith)
            requires
                j > 0,
                s > 0,
        ;
    }
}

/// The item at position `p` is item `p % size` of chunk `p / size`.
pub proof fn lemma_item_in_chunk<T>(items: Seq<T>, size: usize, p: int)
    requires
        0 <= p < items.len(),
    ensures
        0 <= p - group_start(size, items.len() as int, group_of(size, p)) < chunk_of(
            items,
            size,
            group_of(size, p),
        ).len(),
        chunk_of(items, size, group_of(size, p))[p - group_start(
            size,
            items.len() as int,
            group_of(size, p),
        )] == items[p],
{
    lemma_group_of_bounds(size, items.len() as int, p);
}

/// The key function that numbers the chunks of a fixed size.
#[derive(Debug)]
pub struct ChunkIndex {
    size: usize,
    index: usize,
    key: usize,
}

impl ChunkIndex {
    /// The chunk size.
    pub closed spec fn spec_size(&self) -> usize {
        self.size
    }

    /// The key state after `consumed` items were keyed.
    pub closed spec fn keyed(&self, consumed: int) -> bool {
        if consumed == 0 {
            self.index == 0 && self.key == 0
        } else {
            self.index == index_at(self.size, consumed - 1) && self.key == key_at(self.size, consumed - 1)
        }
    }

    /// A key function for chunks of `size` items that has keyed nothing yet.
    pub fn new(size: usize) -> (r: Self)
        ensures
            r.spec_size() == size,
            r.keyed(0),
    {
        ChunkIndex { size, index: 0, key: 0 }
    }

    /// Returns the key of the next item: items `0 .. size` get key 0, the next
    /// `size` items key 1, and so on.
    fn call_mut(&mut self, Ghost(consumed): Ghost<int>) -> (k: usize)
        requires
            old(self).keyed(consumed),
            0 <= consumed < usize::MAX,
        ensures
            final(self).spec_size() == old(self).spec_size(),
            final(self).keyed(consumed + 1),
            k == key_at(old(self).spec_size(), consumed),
    {
        proof {
            let s = self.size as int;
            let p = consumed;
            if s > 0 {
                if p > 0 {
                    lemma_div_bounds(p, s);
                    lemma_div_bounds(p - 1, s);
                    let q1 = (p - 1) / s;
                    if (p - 1) % s == s - 1 {
                        assert(p == (q1 + 1) * s) by (nonlinear_arith)
                            requires
                                (p - 1) % s == (p - 1) - q1 * s,
                                (p - 1) % s == s - 1,
                        ;
                        lemma_div_unique(p, s, q1 + 1);
                    } else {
                        lemma_div_unique(p, s, q1);
                    }
                    assert(self.key <= p - 1) by (nonlinear_arith)
                        requires
                            self.key == q1,
                            q1 * s <= p - 1,
                            s > 0,
                            q1 >= 0,
                    ;
                } else {
                    lemma_div_unique(0, s, 0);
                }
            }
        }
        if self.index == self.size {
            self.key = self.key + 1;
            self.index = 0;
        }
        self.index = self.index + 1;
        self.key
    }
}

/// How one request to a chunk relates what the chunk still held before the
/// request, what came back, and what the chunk holds afterwards.
pub open spec fn stepped<T>(before: Seq<T>, r: Option<T>, after: Seq<T>) -> bool {
    match r {
        Some(x) => before.len() > 0 && x == before[0] && after =~= before.drop_first(),
        None => before.len() == 0 && after.len() == 0,
    }
}

/// The shared state of the chunks of one sequence of items.
#[verifier::reject_recursive_types(T)]
struct GroupInner<T> {
    key: ChunkIndex,
    iter: VecDeque<T>,
    current_key: Option<usize>,
    current_elt: Option<T>,
    /// flag set if iterator is exhausted
    done: bool,
    /// Index of group we are currently buffering or visiting
    top_group: usize,
    /// Least index for which we still have elements buffered
    oldest_buffered_group: usize,
    /// Group index for `buffer[0]`; the slots `bottom_group..oldest_buffered_group`
    /// are unused and are erased when that range is large enough.
    bottom_group: usize,
    /// Buffered groups, from `bottom_group` (index 0) to `top_group`.
    buffer: Vec<VecDeque<T>>,
    /// index of last group iter that was dropped, usize::MAX == none
    dropped_group: usize,
    /// All items, in order, that the chunks are cut from.
    items: Ghost<Seq<T>>,
}

impl<T> GroupInner<T> {
    spec fn n(&self) -> int {
        self.items@.len() as int
    }

    spec fn pos(&self) -> int {
        self.n() - self.iter@.len()
    }

    spec fn size(&self) -> usize {
        self.key.spec_size()
    }

    spec fn gs(&self, j: int) -> int {
        group_start(self.size(), self.n(), j)
    }

    spec fn chunk(&self, j: int) -> Seq<T> {
        chunk_of(self.items@, self.size(), j)
    }

    spec fn current_seq(&self) -> Seq<T> {
        match self.current_elt {
            Some(x) => seq![x],
            None => Seq::empty(),
        }
    }

    /// The items that chunk `j` can still hand out, in order.
    spec fn remaining(&self, j: int) -> Seq<T> {
        if j < self.oldest_buffered_group {
            Seq::empty()
        } else if self.bottom_group <= j < self.bottom_group + self.buffer@.len() {
            self.buffer@[j - self.bottom_group]@
        } else if j < self.top_group {
            Seq::empty()
        } else if j == self.top_group {
            self.current_seq() + self.items@.subrange(self.pos(), self.gs(j + 1))
        } else {
            self.chunk(j)
        }
    }

    /// Whether chunk `client` asking for an item walks past the rest of
    /// chunk `j`, which was dropped, so that its items are thrown away.
    spec fn discards(&self, client: int, j: int) -> bool {
        &&& !self.done
        &&& client == self.top_group + 1
        &&& j == self.top_group
        &&& j == self.dropped_group
    }

    spec fn wf(&self) -> bool {
        &&& self.n() < usize::MAX
        &&& self.iter@.len() <= self.n()
        &&& self.iter@ =~= self.items@.subrange(self.pos(), self.n())
        &&& self.key.keyed(self.pos())
        &&& self.current_key == (if self.pos() == 0 {
            None::<usize>
        } else {
            Some(key_at(self.size(), self.pos() - 1) as usize)
        })
        &&& self.done ==> self.pos() == self.n() && self.current_elt is None
        &&& if self.pos() == 0 {
            self.top_group == 0
        } else {
            self.top_group == group_of(self.size(), self.pos() - 1)
        }
        &&& (self.current_elt matches Some(x) ==> self.pos() > 0 && x == self.items@[self.pos() - 1]
            && self.gs(self.top_group as int) == self.pos() - 1)
        &&& self.bottom_group <= self.oldest_buffered_group <= self.top_group + 1
        &&& self.bottom_group + self.buffer@.len() <= self.top_group + 1
        &&& (self.bottom_group + self.buffer@.len() == self.top_group + 1 ==> self.done)
        &&& (self.buffer@.len() == 0 ==> self.bottom_group == self.oldest_buffered_group)
        &&& (self.buffer@.len() > 0 ==> self.oldest_buffered_group <= self.bottom_group
            + self.buffer@.len())
        &&& forall|k: int|
            0 <= k < self.buffer@.len() ==> is_suffix(
                #[trigger] self.buffer@[k]@,
                self.chunk(self.bottom_group + k),
            )
        &&& forall|k: int|
            0 <= k < self.buffer@.len() && self.bottom_group + k < self.oldest_buffered_group
                ==> (#[trigger] self.buffer@[k]@).len() == 0
    }

    /// The facts about positions and chunk bounds that the invariant implies.
    proof fn lemma_positions(&self)
        requires
            self.wf(),
        ensures
            0 <= self.pos() <= self.n(),
            self.gs(self.top_group as int) <= self.pos() <= self.gs(self.top_group + 1),
            self.done ==> self.gs(self.top_group + 1) == self.n(),
            self.top_group <= self.pos(),
            self.top_group < usize::MAX,
    {
        let s = self.size();
        let n = self.n();
        lemma_group_start_monotone(s, n, self.top_group as int, self.top_group + 1);
        if self.pos() > 0 {
            lemma_group_of_bounds(s, n, self.pos() - 1);
            if s > 0 {
                lemma_div_bounds(self.pos() - 1, s as int);
                assert(self.top_group <= self.pos() - 1) by (nonlinear_arith)
                    requires
                        self.top_group == (self.pos() - 1) / (s as int),
                        (self.top_group as int) * (s as int) <= self.pos() - 1,
                        s > 0,
                ;
            }
        }
    }

    /// Takes the next element from the iterator, and sets the done flag if
    /// exhausted. Must not be called after done.
    fn next_element(&mut self) -> (r: Option<T>)
        requires
            !old(self).done,
        ensures
            match r {
                Some(x) => {
                    &&& old(self).iter@.len() > 0
                    &&& x == old(self).iter@[0]
                    &&& final(self).iter@ =~= old(self).iter@.drop_first()
                    &&& !final(self).done
                },
                None => {
                    &&& old(self).iter@.len() == 0
                    &&& final(self).iter@ == old(self).iter@
                    &&& final(self).done
                },
            },
            final(self).key == old(self).key,
            final(self).current_key == old(self).current_key,
            final(self).current_elt == old(self).current_elt,
            final(self).top_group == old(self).top_group,
            final(self).oldest_buffered_group == old(self).oldest_buffered_group,
            final(self).bottom_group == old(self).bottom_group,
            final(self).buffer == old(self).buffer,
            final(self).dropped_group == old(self).dropped_group,
            final(self).items == old(self).items,
    {
        match self.iter.pop_front() {
            None => {
                self.done = true;
                None
            },
            otherwise => otherwise,
        }
    }


    /// The buffer bookkeeping once chunk `client`, the oldest one buffered,
    /// has nothing left: the oldest buffered chunk moves past it and past
    /// every empty queue after it, and when at least half of the slots lie
    /// before it they are erased, the first slot then standing for it.
    spec fn advanced(pre: Self, post: Self, client: int) -> bool {
        let o = post.oldest_buffered_group as int;
        let nclear = o - pre.bottom_group;
        let len = pre.buffer@.len() as int;
        &&& client < o
        &&& forall|k: int|
            client - pre.bottom_group < k < nclear ==> 0 <= k < len && (#[trigger] pre.buffer@[k])@.len()
                == 0
        &&& (nclear >= len || pre.buffer@[nclear]@.len() > 0)
        &&& if nclear >= len / 2 {
            &&& post.bottom_group == o
            &&& post.buffer@.len() == (if nclear < len {
                len - nclear
            } else {
                0
            })
            &&& forall|k: int| 0 <= k < post.buffer@.len() ==> (#[trigger] post.buffer@[k])@ == pre.buffer@[k
                + nclear]@
        } else {
            &&& post.bottom_group == pre.bottom_group
            &&& post.buffer@.len() == len
            &&& forall|k: int| 0 <= k < len ==> (#[trigger] post.buffer@[k])@ == pre.buffer@[k]@
        }
    }

    /// Hands out the next buffered item of chunk `client`, and erases buffer
    /// slots that are no longer needed.
    #[verifier::rlimit(30)]
    fn lookup_buffer(&mut self, client: usize) -> (r: Option<T>)
        requires
            old(self).wf(),
            old(self).bottom_group <= client,
            client < old(self).top_group || (client == old(self).top_group
                && old(self).buffer@.len() > old(self).top_group - old(self).bottom_group),
        ensures
            final(self).wf(),
            final(self).items == old(self).items,
            final(self).size() == old(self).size(),
            final(self).dropped_group == old(self).dropped_group,
            stepped(old(self).remaining(client as int), r, final(self).remaining(client as int)),
            forall|j: int| j != client ==> final(self).remaining(j) == old(self).remaining(j),
            final(self).top_group == old(self).top_group,
            final(self).done == old(self).done,
            !(r is None && client == old(self).oldest_buffered_group) ==> {
                &&& final(self).oldest_buffered_group == old(self).oldest_buffered_group
                &&& final(self).bottom_group == old(self).bottom_group
                &&& final(self).buffer@.len() == old(self).buffer@.len()
            },
            r is None && client == old(self).oldest_buffered_group ==> Self::advanced(
                *old(self),
                *final(self),
                client as int,
            ),
    {
        proof {
            self.lemma_positions();
        }
        let ghost pre = *self;
        // if `bufidx` doesn't exist in self.buffer, it might be empty
        let bufidx = client - self.bottom_group;
        if client < self.oldest_buffered_group {
            return None;
        }
        let elt = if bufidx < self.buffer.len() {
            let e = self.buffer[bufidx].pop_front();
            proof {
                let k = bufidx as int;
                assert(self.buffer@[k]@ =~= pre.buffer@[k]@.drop_first() || self.buffer@[k]@
                    == pre.buffer@[k]@);
                assert forall|i: int| 0 <= i < self.buffer@.len() implies is_suffix(
                    #[trigger] self.buffer@[i]@,
                    self.chunk(self.bottom_group + i),
                ) by {
                    if i == k {
                        let b = pre.buffer@[k]@;
                        let c = self.chunk(self.bottom_group + k);
                        if e is Some {
                            assert(self.buffer@[k]@ =~= c.subrange(
                                c.len() - self.buffer@[k]@.len(),
                                c.len() as int,
                            ));
                        }
                    }
                }
            }
            e
        } else {
            None
        };
        let ghost mid = *self;
        proof {
            assert(stepped(pre.remaining(client as int), elt, mid.remaining(client as int)));
            assert forall|j: int| j != client implies mid.remaining(j) == pre.remaining(j) by {}
            if elt is None {
                assert forall|k: int| 0 <= k < mid.buffer@.len() implies (#[trigger] mid.buffer@[k])@
                    == pre.buffer@[k]@ by {
                    if k != bufidx {
                        assert(mid.buffer@[k] == pre.buffer@[k]);
                    }
                }
            }
        }
        if elt.is_none() && client == self.oldest_buffered_group {
            // `bottom_group..oldest_buffered_group` is unused, and if it's large enough, erase it.
            self.oldest_buffered_group = self.oldest_buffered_group + 1;
            // skip forward further empty queues too
            while self.oldest_buffered_group - self.bottom_group < self.buffer.len()
                && self.buffer[self.oldest_buffered_group - self.bottom_group].len() == 0
                invariant
                    self.items == mid.items,
                    self.iter == mid.iter,
                    self.key == mid.key,
                    self.current_key == mid.current_key,
                    self.current_elt == mid.current_elt,
                    self.done == mid.done,
                    self.top_group == mid.top_group,
                    self.bottom_group == mid.bottom_group,
                    self.buffer == mid.buffer,
                    self.dropped_group == mid.dropped_group,
                    mid.oldest_buffered_group < self.oldest_buffered_group <= mid.top_group + 1,
                    self.bottom_group <= self.oldest_buffered_group,
                    mid.bottom_group + mid.buffer@.len() <= mid.top_group + 1,
                    mid.top_group < usize::MAX,
                    self.oldest_buffered_group <= mid.bottom_group + mid.buffer@.len()
                        || self.oldest_buffered_group == client + 1,
                    forall|k: int|
                        0 <= k < self.buffer@.len() && self.bottom_group + k
                            < self.oldest_buffered_group ==> (#[trigger] self.buffer@[k]@).len()
                            == 0,
                    forall|j: int| #[trigger] self.remaining(j) == mid.remaining(j),
                decreases self.buffer@.len() - (self.oldest_buffered_group - self.bottom_group),
            {
                self.oldest_buffered_group = self.oldest_buffered_group + 1;
            }
            let nclear = self.oldest_buffered_group - self.bottom_group;
            let ghost after_skip = *self;
            proof {
                assert(nclear >= self.buffer@.len() || self.buffer@[nclear as int]@.len() > 0);
                assert(self.buffer@.len() == pre.buffer@.len());
            }
            if nclear > 0 && nclear >= self.buffer.len() / 2 {
                let ghost before_clear = *self;
                let mut rest: Vec<VecDeque<T>> = Vec::new();
                if nclear < self.buffer.len() {
                    rest = self.buffer.split_off(nclear);
                }
                self.buffer = rest;
                self.bottom_group = self.oldest_buffered_group;
                proof {
                    assert forall|j: int| #[trigger] self.remaining(j) == before_clear.remaining(
                        j,
                    ) by {
                        if j >= self.oldest_buffered_group && nclear < before_clear.buffer@.len() {
                            if self.bottom_group <= j < self.bottom_group + self.buffer@.len() {
                                assert(self.buffer@[j - self.bottom_group]
                                    == before_clear.buffer@[j - before_clear.bottom_group]);
                            }
                        }
                    }
                    assert forall|k: int| 0 <= k < self.buffer@.len() implies is_suffix(
                        #[trigger] self.buffer@[k]@,
                        self.chunk(self.bottom_group + k),
                    ) by {
                        assert(self.buffer@[k] == before_clear.buffer@[k + nclear]);
                    }
                    assert forall|k: int| 0 <= k < self.buffer@.len() implies (#[trigger] self.buffer@[k])@
                        == pre.buffer@[k + nclear]@ by {
                        assert(self.buffer@[k] == before_clear.buffer@[k + nclear]);
                    }
                }
            }
            proof {
                let o = self.oldest_buffered_group as int;
                let nc = o - pre.bottom_group;
                let len = pre.buffer@.len() as int;
                assert(client < o);
                assert forall|k: int| client - pre.bottom_group < k < nc implies 0 <= k < len && (
                #[trigger] pre.buffer@[k])@.len() == 0 by {
                    assert(after_skip.buffer@[k]@.len() == 0);
                }
                assert(nc >= len || pre.buffer@[nc]@.len() > 0) by {
                    if nc < len {
                        assert(after_skip.buffer@[nc]@ == pre.buffer@[nc]@);
                    }
                }
                assert(Self::advanced(pre, *self, client as int));
            }
        }
        elt
    }


    /// Whatever a chunk still holds is a final segment of that chunk.
    proof fn lemma_remaining_is_suffix(&self, j: int)
        requires
            self.wf(),
        ensures
            is_suffix(self.remaining(j), self.chunk(j)),
    {
        self.lemma_positions();
        let r = self.remaining(j);
        let c = self.chunk(j);
        if j < self.oldest_buffered_group {
        } else if self.bottom_group <= j < self.bottom_group + self.buffer@.len() {
            assert(is_suffix(self.buffer@[j - self.bottom_group]@, self.chunk(j)));
        } else if j < self.top_group {
        } else if j == self.top_group {
            lemma_group_start_monotone(self.size(), self.n(), j, j + 1);
            assert(r =~= c.subrange(c.len() - r.len(), c.len() as int));
        } else {
            assert(r =~= c.subrange(c.len() - r.len(), c.len() as int));
        }
    }

    /// Fills the slots between the buffered groups and the top group with
    /// empty queues, then buffers `group` as the top group.
    fn push_next_group(&mut self, group: VecDeque<T>)
        requires
            old(self).bottom_group <= old(self).oldest_buffered_group,
            old(self).bottom_group + old(self).buffer@.len() <= old(self).top_group,
            old(self).buffer@.len() == 0 ==> old(self).bottom_group == old(self).oldest_buffered_group,
            old(self).buffer@.len() > 0 ==> old(self).oldest_buffered_group <= old(self).bottom_group
                + old(self).buffer@.len(),
        ensures
            final(self).items == old(self).items,
            final(self).iter == old(self).iter,
            final(self).key == old(self).key,
            final(self).current_key == old(self).current_key,
            final(self).current_elt == old(self).current_elt,
            final(self).done == old(self).done,
            final(self).top_group == old(self).top_group,
            final(self).dropped_group == old(self).dropped_group,
            final(self).bottom_group + final(self).buffer@.len() == old(self).top_group + 1,
            final(self).buffer@.len() > 0,
            final(self).buffer@.last() == group,
            old(self).buffer@.len() == 0 ==> final(self).bottom_group == old(self).top_group
                && final(self).oldest_buffered_group == old(self).top_group,
            old(self).buffer@.len() > 0 ==> final(self).bottom_group == old(self).bottom_group
                && final(self).oldest_buffered_group == old(self).oldest_buffered_group,
            forall|k: int|
                0 <= k < old(self).buffer@.len() ==> #[trigger] final(self).buffer@[k]
                    == old(self).buffer@[k],
            forall|k: int|
                old(self).buffer@.len() <= k < final(self).buffer@.len() - 1 ==> (
                #[trigger] final(self).buffer@[k])@.len() == 0,
    {
        let ghost pre = *self;
        // When we add a new buffered group, fill up slots between oldest_buffered_group and top_group
        while self.top_group - self.bottom_group > self.buffer.len()
            invariant
                self.items == pre.items,
                self.iter == pre.iter,
                self.key == pre.key,
                self.current_key == pre.current_key,
                self.current_elt == pre.current_elt,
                self.done == pre.done,
                self.top_group == pre.top_group,
                self.dropped_group == pre.dropped_group,
                self.bottom_group <= self.oldest_buffered_group,
                self.bottom_group + self.buffer@.len() <= self.top_group,
                pre.buffer@.len() == 0 ==> self.buffer@.len() == 0 && self.bottom_group
                    == self.oldest_buffered_group,
                pre.buffer@.len() > 0 ==> self.bottom_group == pre.bottom_group
                    && self.oldest_buffered_group == pre.oldest_buffered_group
                    && self.buffer@.len() >= pre.buffer@.len(),
                forall|k: int|
                    0 <= k < pre.buffer@.len() ==> #[trigger] self.buffer@[k] == pre.buffer@[k],
                forall|k: int|
                    pre.buffer@.len() <= k < self.buffer@.len() ==> (
                    #[trigger] self.buffer@[k])@.len() == 0,
            decreases self.top_group - self.bottom_group - self.buffer@.len(),
        {
            if self.buffer.is_empty() {
                self.bottom_group = self.bottom_group + 1;
                self.oldest_buffered_group = self.oldest_buffered_group + 1;
            } else {
                self.buffer.push(VecDeque::new());
            }
        }
        self.buffer.push(group);
    }

    /// A later chunk was requested: walks through the rest of the current
    /// chunk, buffers its items (unless that chunk was dropped), and returns
    /// the first item of the next chunk.
    #[verifier::rlimit(80)]
    fn step_buffering(&mut self, client: usize) -> (r: Option<T>)
        requires
            old(self).wf(),
            !old(self).done,
            old(self).top_group + 1 == client,
        ensures
            final(self).wf(),
            final(self).items == old(self).items,
            final(self).size() == old(self).size(),
            final(self).dropped_group == old(self).dropped_group,
            stepped(old(self).remaining(client as int), r, final(self).remaining(client as int)),
            forall|j: int|
                j != client ==> #[trigger] final(self).remaining(j) == (if j == old(self).top_group && j
                    == old(self).dropped_group {
                    Seq::empty()
                } else {
                    old(self).remaining(j)
                }),
            final(self).top_group == client || final(self).done,
            final(self).top_group >= old(self).top_group,
            match r {
                Some(_) => {
                    &&& final(self).top_group == client
                    &&& !final(self).done
                    &&& final(self).pos() == old(self).gs(client as int) + 1
                    &&& final(self).current_key == Some(
                        key_at(old(self).size(), old(self).gs(client as int)) as usize,
                    )
                    &&& final(self).iter@ == old(self).items@.subrange(
                        old(self).gs(client as int) + 1,
                        old(self).n(),
                    )
                },
                None => {
                    &&& final(self).done
                    &&& final(self).top_group == old(self).top_group
                    &&& final(self).iter@.len() == 0
                },
            },
            final(self).current_elt is None,
            old(self).top_group == old(self).dropped_group ==> {
                &&& final(self).buffer == old(self).buffer
                &&& final(self).bottom_group == old(self).bottom_group
                &&& final(self).oldest_buffered_group == old(self).oldest_buffered_group
            },
            old(self).top_group != old(self).dropped_group ==> {
                &&& final(self).bottom_group + final(self).buffer@.len() == old(self).top_group + 1
                &&& final(self).buffer@.last()@ == old(self).remaining(old(self).top_group as int)
            },
    {
        proof {
            self.lemma_positions();
            self.lemma_remaining_is_suffix(self.top_group as int);
        }
        let ghost pre = *self;
        let ghost t = self.top_group as int;
        let ghost kept = self.top_group != self.dropped_group;
        let mut group: VecDeque<T> = VecDeque::new();

        if let Some(elt) = self.current_elt.take() {
            if self.top_group != self.dropped_group {
                group.push_back(elt);
            }
        }
        let mut first_elt: Option<T> = None;  // first element of the next group

        loop
            invariant_except_break
                pre.wf(),
                t == pre.top_group,
                kept == (pre.top_group != pre.dropped_group),
                self.items == pre.items,
                self.top_group == pre.top_group,
                self.oldest_buffered_group == pre.oldest_buffered_group,
                self.bottom_group == pre.bottom_group,
                self.buffer == pre.buffer,
                self.dropped_group == pre.dropped_group,
                self.current_elt is None,
                self.key.spec_size() == pre.size(),
                self.n() < usize::MAX,
                self.iter@.len() <= self.n(),
                self.iter@ =~= self.items@.subrange(self.pos(), self.n()),
                self.key.keyed(self.pos()),
                self.current_key == (if self.pos() == 0 {
                    None::<usize>
                } else {
                    Some(key_at(self.size(), self.pos() - 1) as usize)
                }),
                pre.pos() <= self.pos() <= pre.gs(t + 1),
                self.pos() > 0 ==> group_of(self.size(), self.pos() - 1) == t,
                !self.done,
                first_elt is None,
                group@ =~= (if kept {
                    pre.current_seq() + self.items@.subrange(pre.pos(), self.pos())
                } else {
                    Seq::empty()
                }),
            ensures
                pre.wf(),
                t == pre.top_group,
                kept == (pre.top_group != pre.dropped_group),
                self.items == pre.items,
                self.top_group == pre.top_group,
                self.oldest_buffered_group == pre.oldest_buffered_group,
                self.bottom_group == pre.bottom_group,
                self.buffer == pre.buffer,
                self.dropped_group == pre.dropped_group,
                self.current_elt is None,
                self.key.spec_size() == pre.size(),
                self.iter@.len() <= self.n(),
                self.iter@ =~= self.items@.subrange(self.pos(), self.n()),
                self.key.keyed(self.pos()),
                self.current_key == (if self.pos() == 0 {
                    None::<usize>
                } else {
                    Some(key_at(self.size(), self.pos() - 1) as usize)
                }),
                match first_elt {
                    None => {
                        &&& self.done
                        &&& self.pos() == self.n()
                        &&& self.pos() >= pre.pos()
                        &&& (self.pos() > 0 ==> group_of(self.size(), self.pos() - 1) == t)
                        &&& self.n() == pre.gs(t + 1)
                        &&& group@ =~= (if kept {
                            pre.current_seq() + self.items@.subrange(pre.pos(), self.n())
                        } else {
                            Seq::empty()
                        })
                    },
                    Some(x) => {
                        &&& !self.done
                        &&& self.pos() == pre.gs(t + 1) + 1
                        &&& x == self.items@[self.pos() - 1]
                        &&& group_of(self.size(), self.pos() - 1) == t + 1
                        &&& group@ =~= (if kept {
                            pre.current_seq() + self.items@.subrange(pre.pos(), self.pos() - 1)
                        } else {
                            Seq::empty()
                        })
                    },
                },
            decreases self.iter@.len(),
        {
            let ghost consumed = self.pos();
            match self.next_element() {
                None => {
                    proof {
                        if self.n() > 0 {
                            lemma_group_of_bounds(self.size(), self.n(), self.n() - 1);
                        }
                        lemma_group_start_monotone(self.size(), self.n(), t + 1, t + 1);
                    }
                    break;
                },
                Some(elt) => {
                    let key = self.key.call_mut(Ghost(consumed));
                    proof {
                        lemma_group_of_bounds(self.size(), self.n(), consumed);
                        if consumed > 0 {
                            lemma_key_change(self.size(), self.n(), consumed);
                        }
                    }
                    match self.current_key.take() {
                        None => {},
                        Some(old_key) => {
                            if old_key != key {
                                self.current_key = Some(key);
                                first_elt = Some(elt);
                                break;
                            }
                        },
                    }
                    self.current_key = Some(key);
                    if self.top_group != self.dropped_group {
                        group.push_back(elt);
                    }
                    proof {
                        assert(elt == self.items@[consumed]);
                        if consumed > 0 {
                            assert(key_at(self.size(), consumed) == key_at(self.size(), consumed - 1));
                        } else {
                            lemma_group_of_unique(self.size(), self.n(), 0, 0);
                        }
                        assert(group_of(self.size(), consumed) == t);
                        assert(self.pos() == consumed + 1);
                        assert(pre.pos() <= consumed);
                        assert(consumed + 1 <= self.items@.len());
                        let a = self.items@.subrange(pre.pos(), consumed + 1);
                        let b = self.items@.subrange(pre.pos(), consumed).push(elt);
                        assert(a.len() == b.len());
                        assert forall|i: int| 0 <= i < a.len() implies a[i] == b[i] by {
                            if i < a.len() - 1 {
                            } else {
                                assert(a[i] == self.items@[consumed]);
                            }
                        }
                        assert(a =~= b);
                    }
                },
            }
        }

        let ghost before_push = *self;
        if self.top_group != self.dropped_group {
            self.push_next_group(group);
        }
        if first_elt.is_some() {
            self.top_group = self.top_group + 1;
        }
        proof {
            let post = *self;
            lemma_group_start_monotone(pre.size(), pre.n(), t + 1, t + 2);
            if first_elt is Some {
                lemma_group_of_bounds(pre.size(), pre.n(), post.pos() - 1);
            }
            assert forall|k: int| 0 <= k < post.buffer@.len() implies is_suffix(
                #[trigger] post.buffer@[k]@,
                post.chunk(post.bottom_group + k),
            ) by {
                if kept && k == post.buffer@.len() - 1 {
                    assert(post.buffer@[k]@ =~= pre.remaining(t));
                } else if kept && k >= pre.buffer@.len() {
                } else if kept && pre.buffer@.len() == 0 {
                } else {
                    assert(post.buffer@[k] == pre.buffer@[k]);
                }
            }
            assert(post.n() < usize::MAX);
            assert(post.iter@ =~= post.items@.subrange(post.pos(), post.n()));
            assert(post.key.keyed(post.pos()));
            assert(post.done ==> post.pos() == post.n() && post.current_elt is None);
            assert(if post.pos() == 0 {
                post.top_group == 0
            } else {
                post.top_group == group_of(post.size(), post.pos() - 1)
            });
            assert(post.bottom_group <= post.oldest_buffered_group <= post.top_group + 1);
            assert(post.bottom_group + post.buffer@.len() <= post.top_group + 1);
            assert(post.bottom_group + post.buffer@.len() == post.top_group + 1 ==> post.done);
            assert(post.buffer@.len() == 0 ==> post.bottom_group == post.oldest_buffered_group);
            assert(post.buffer@.len() > 0 ==> post.oldest_buffered_group <= post.bottom_group
                + post.buffer@.len());
            assert(forall|k: int|
                0 <= k < post.buffer@.len() && post.bottom_group + k < post.oldest_buffered_group
                    ==> (#[trigger] post.buffer@[k]@).len() == 0);
            assert(post.wf());
            assert(stepped(pre.remaining(client as int), first_elt, post.remaining(client as int))) by {
                if first_elt is Some {
                    assert(post.remaining(client as int) =~= pre.remaining(client as int).drop_first());
                } else {
                    assert(pre.remaining(client as int) =~= Seq::<T>::empty());
                }
            }
            assert forall|j: int| j != client implies #[trigger] post.remaining(j) == (if j == pre.top_group
                && j == pre.dropped_group {
                Seq::empty()
            } else {
                pre.remaining(j)
            }) by {
                if j == t {
                    if kept {
                        assert(post.remaining(j) =~= pre.remaining(j));
                    } else {
                        assert(post.remaining(j) =~= Seq::<T>::empty());
                    }
                } else if j < t {
                    if kept && pre.buffer@.len() > 0 && pre.bottom_group <= j < pre.bottom_group
                        + pre.buffer@.len() {
                        assert(post.buffer@[j - post.bottom_group] == pre.buffer@[j - pre.bottom_group]);
                    }
                } else if j > t + 1 {
                }
            }
        }
        first_elt
    }


    /// `client`: Index of group that requests next element
    fn step(&mut self, client: usize) -> (r: Option<T>)
        requires
            old(self).wf(),
            old(self).done || client <= old(self).top_group + 1,
        ensures
            final(self).wf(),
            final(self).items == old(self).items,
            final(self).size() == old(self).size(),
            final(self).dropped_group == old(self).dropped_group,
            stepped(old(self).remaining(client as int), r, final(self).remaining(client as int)),
            forall|j: int|
                j != client ==> #[trigger] final(self).remaining(j) == (if old(self).discards(
                    client as int,
                    j,
                ) {
                    Seq::empty()
                } else {
                    old(self).remaining(j)
                }),
            final(self).top_group >= old(self).top_group,
            old(self).done ==> final(self).done,
            client <= final(self).top_group || final(self).done,
    {
        proof {
            self.lemma_positions();
        }
        if client < self.oldest_buffered_group {
            None
        } else if client < self.top_group || (client == self.top_group && self.buffer.len()
            > self.top_group - self.bottom_group) {
            self.lookup_buffer(client)
        } else if self.done {
            proof {
                if client > self.top_group {
                    lemma_group_start_monotone(self.size(), self.n(), self.top_group + 1, client as int);
                    lemma_group_start_monotone(self.size(), self.n(), client as int, client + 1);
                }
                assert(self.remaining(client as int) =~= Seq::<T>::empty());
            }
            None
        } else if self.top_group == client {
            self.step_current()
        } else {
            self.step_buffering(client)
        }
    }

    /// Called when a group is dropped
    fn drop_group(&mut self, client: usize)
        requires
            old(self).wf(),
        ensures
            final(self).wf(),
            final(self).items == old(self).items,
            final(self).size() == old(self).size(),
            final(self).top_group == old(self).top_group,
            final(self).done == old(self).done,
            final(self).dropped_group == (if old(self).dropped_group == usize::MAX || client
                > old(self).dropped_group {
                client
            } else {
                old(self).dropped_group
            }),
            forall|j: int| final(self).remaining(j) == old(self).remaining(j),
    {
        // It's only useful to track the maximal index
        if self.dropped_group == usize::MAX || client > self.dropped_group {
            self.dropped_group = client;
        }
    }

    /// This is the immediate case, where we use no buffering.
    fn step_current(&mut self) -> (r: Option<T>)
        requires
            old(self).wf(),
            !old(self).done,
        ensures
            final(self).wf(),
            final(self).items == old(self).items,
            final(self).size() == old(self).size(),
            final(self).dropped_group == old(self).dropped_group,
            stepped(
                old(self).remaining(old(self).top_group as int),
                r,
                final(self).remaining(old(self).top_group as int),
            ),
            forall|j: int|
                j != old(self).top_group ==> final(self).remaining(j) == old(self).remaining(j),
            final(self).top_group >= old(self).top_group,
            final(self).done || final(self).top_group > old(self).top_group || r is Some,
    {
        proof {
            self.lemma_positions();
        }
        let ghost pre = *self;
        if let Some(elt) = self.current_elt.take() {
            proof {
                assert(self.remaining(pre.top_group as int) =~= pre.remaining(
                    pre.top_group as int,
                ).drop_first());
                assert forall|j: int| j != pre.top_group implies self.remaining(j) == pre.remaining(
                    j,
                ) by {}
            }
            return Some(elt);
        }
        let ghost consumed = self.pos();
        match self.next_element() {
            None => {
                proof {
                    assert(pre.remaining(pre.top_group as int) =~= Seq::<T>::empty());
                    assert(self.remaining(pre.top_group as int) =~= Seq::<T>::empty());
                    assert forall|j: int| j != pre.top_group implies self.remaining(j)
                        == pre.remaining(j) by {}
                }
                None
            },
            Some(elt) => {
                let key = self.key.call_mut(Ghost(consumed));
                proof {
                    lemma_group_of_bounds(pre.size(), pre.n(), consumed);
                    if consumed > 0 {
                        lemma_key_change(pre.size(), pre.n(), consumed);
                    }
                }
                match self.current_key.take() {
                    None => {},
                    Some(old_key) => {
                        if old_key != key {
                            self.current_key = Some(key);
                            self.current_elt = Some(elt);
                            self.top_group = self.top_group + 1;
                            proof {
                                let t = pre.top_group as int;
                                lemma_group_start_monotone(pre.size(), pre.n(), t + 1, t + 2);
                                assert(pre.remaining(t) =~= Seq::<T>::empty());
                                assert(self.remaining(t) =~= Seq::<T>::empty());
                                assert(self.remaining(t + 1) =~= pre.remaining(t + 1));
                                assert forall|j: int| j != t implies self.remaining(j)
                                    == pre.remaining(j) by {
                                    if j == t + 1 {
                                    } else if j > t + 1 {
                                        assert(self.remaining(j) == pre.remaining(j));
                                    }
                                }
                            }
                            return None;
                        }
                    },
                }
                self.current_key = Some(key);
                proof {
                    let t = pre.top_group as int;
                    assert(self.remaining(t) =~= pre.remaining(t).drop_first());
                    assert forall|j: int| j != t implies self.remaining(j) == pre.remaining(j) by {}
                }
                Some(elt)
            },
        }
    }
}

/// Splitting a collection of items into chunks of a fixed size.
pub trait ChunksExt<T>: Sized {
    /// The items, in the order in which the chunks hand them out.
    spec fn chunk_items(&self) -> Seq<T>;

    /// Splits the items into consecutive chunks of `size` items (the last
    /// chunk may be shorter); a `size` of zero makes one chunk of all items.
    fn chunks(self, size: usize) -> (r: IntoChunks<T>)
        requires
            self.chunk_items().len() < usize::MAX,
        ensures
            r.wf(),
            r.items() == self.chunk_items(),
            r.chunk_size() == size,
            r.next_index() == 0,
            r.dropped() == usize::MAX,
            forall|j: int| #[trigger] r.remaining(j) == chunk_of(self.chunk_items(), size, j),
    ;
}

impl<T> ChunksExt<T> for Vec<T> {
    open spec fn chunk_items(&self) -> Seq<T> {
        self@
    }

    fn chunks(self, size: usize) -> (r: IntoChunks<T>) {
        let ghost items = self@;
        let mut rest = self;
        let mut iter: VecDeque<T> = VecDeque::new();
        while rest.len() > 0
            invariant
                rest@ + iter@ =~= items,
            decreases rest@.len(),
        {
            match rest.pop() {
                Some(x) => {
                    iter.push_front(x);
                },
                None => {},
            }
        }
        let r = IntoChunks {
            inner: GroupInner {
                key: ChunkIndex::new(size),
                iter,
                current_key: None,
                current_elt: None,
                done: false,
                top_group: 0,
                oldest_buffered_group: 0,
                bottom_group: 0,
                buffer: Vec::new(),
                dropped_group: usize::MAX,
                items: Ghost(items),
            },
            index: 0,
        };
        proof {
            lemma_group_start_monotone(size, items.len() as int, 0, 1);
            assert forall|j: int| #[trigger] r.remaining(j) == chunk_of(items, size, j) by {
                if j < 0 {
                    assert(r.remaining(j) =~= chunk_of(items, size, j));
                } else if j == 0 {
                    assert(r.remaining(j) =~= chunk_of(items, size, j));
                }
            }
        }
        r
    }
}

/// The state shared by all chunks of one sequence of items.
#[verifier::reject_recursive_types(T)]
pub struct IntoChunks<T> {
    inner: GroupInner<T>,
    index: usize,
}

impl<T> IntoChunks<T> {
    /// The state is consistent, and the next chunk to be handed out may
    /// request items.
    pub closed spec fn wf(&self) -> bool {
        &&& self.inner.wf()
        &&& self.can_step(self.index)
    }

    /// Chunk `client` may request an item in this state.
    pub closed spec fn can_step(&self, client: usize) -> bool {
        self.inner.done || client <= self.inner.top_group + 1
    }

    /// All items, in order.
    pub closed spec fn items(&self) -> Seq<T> {
        self.inner.items@
    }

    /// The chunk size.
    pub closed spec fn chunk_size(&self) -> usize {
        self.inner.size()
    }

    /// The index of the next chunk that iteration hands out.
    pub closed spec fn next_index(&self) -> usize {
        self.index
    }

    /// The highest index of a chunk that was dropped (`usize::MAX` for none).
    pub closed spec fn dropped(&self) -> usize {
        self.inner.dropped_group
    }

    /// The items that chunk `j` can still hand out, in order.
    pub closed spec fn remaining(&self, j: int) -> Seq<T> {
        self.inner.remaining(j)
    }

    /// The index of the chunk whose items are being read from the source.
    pub closed spec fn current(&self) -> usize {
        self.inner.top_group
    }

    /// Whether the source has no items left.
    pub closed spec fn exhausted(&self) -> bool {
        self.inner.done
    }

    /// Whether chunk `client` asking for an item walks past the rest of
    /// chunk `j`: the chunk read from the source, dropped, and followed by
    /// `client`. Its items are then thrown away instead of buffered.
    pub open spec fn discards(&self, client: int, j: int) -> bool {
        &&& self.dropped() != usize::MAX
        &&& !self.exhausted()
        &&& client == self.current() + 1
        &&& j == self.current()
        &&& j == self.dropped()
    }

    /// What a chunk can still hand out is always a final segment of that chunk.
    pub proof fn lemma_remaining_is_suffix(&self, j: int)
        requires
            self.wf(),
        ensures
            is_suffix(self.remaining(j), chunk_of(self.items(), self.chunk_size(), j)),
    {
        self.inner.lemma_remaining_is_suffix(j);
    }

    /// `client`: Index of chunk that requests next element
    fn step(&mut self, client: usize) -> (r: Option<T>)
        requires
            old(self).wf(),
            old(self).can_step(client),
        ensures
            final(self).wf(),
            final(self).items() == old(self).items(),
            final(self).chunk_size() == old(self).chunk_size(),
            final(self).next_index() == old(self).next_index(),
            final(self).dropped() == old(self).dropped(),
            stepped(old(self).remaining(client as int), r, final(self).remaining(client as int)),
            forall|j: int|
                j != client ==> #[trigger] final(self).remaining(j) == (if old(self).discards(
                    client as int,
                    j,
                ) {
                    Seq::empty()
                } else {
                    old(self).remaining(j)
                }),
            forall|c: usize| old(self).can_step(c) ==> #[trigger] final(self).can_step(c),
            client + 1 <= usize::MAX ==> final(self).can_step((client + 1) as usize),
    {
        proof {
            self.inner.lemma_positions();
        }
        self.inner.step(client)
    }

    /// `client`: Index of chunk
    fn drop_group(&mut self, client: usize)
        requires
            old(self).wf(),
        ensures
            final(self).wf(),
            final(self).items() == old(self).items(),
            final(self).chunk_size() == old(self).chunk_size(),
            final(self).next_index() == old(self).next_index(),
            final(self).dropped() == (if old(self).dropped() == usize::MAX || client
                > old(self).dropped() {
                client
            } else {
                old(self).dropped()
            }),
            forall|j: int| final(self).remaining(j) == old(self).remaining(j),
            forall|c: usize| old(self).can_step(c) ==> #[trigger] final(self).can_step(c),
    {
        self.inner.drop_group(client)
    }

    /// Starts iterating over the chunks.
    pub fn into_iter(self) -> (r: Chunks<T>)
        ensures
            r.parent() == self,
    {
        Chunks { parent: self }
    }
}

/// Iteration over the chunks of a sequence of items, in order.
#[verifier::reject_recursive_types(T)]
pub struct Chunks<T> {
    parent: IntoChunks<T>,
}

impl<T> Chunks<T> {
    /// The shared state of the chunks.
    pub closed spec fn parent(&self) -> IntoChunks<T> {
        self.parent
    }

    /// Hands out the next chunk, holding its first item, or `None` when that
    /// chunk has no items.
    pub fn next(&mut self) -> (r: Option<Chunk<T>>)
        requires
            old(self).parent().wf(),
        ensures
            final(self).parent().wf(),
            final(self).parent().items() == old(self).parent().items(),
            final(self).parent().chunk_size() == old(self).parent().chunk_size(),
            final(self).parent().dropped() == old(self).parent().dropped(),
            final(self).parent().next_index() == (if old(self).parent().next_index() == usize::MAX {
                0
            } else {
                old(self).parent().next_index() + 1
            }),
            match r {
                Some(c) => {
                    &&& c.index() == old(self).parent().next_index()
                    &&& old(self).parent().remaining(c.index() as int).len() > 0
                    &&& c.held() + final(self).parent().remaining(c.index() as int)
                        == old(self).parent().remaining(c.index() as int)
                    &&& final(self).parent().can_step(c.index())
                },
                None => old(self).parent().remaining(old(self).parent().next_index() as int).len()
                    == 0,
            },
            forall|j: int|
                j != old(self).parent().next_index() ==> #[trigger] final(self).parent().remaining(j)
                    == (if old(self).parent().discards(old(self).parent().next_index() as int, j) {
                    Seq::empty()
                } else {
                    old(self).parent().remaining(j)
                }),
            forall|c: usize| old(self).parent().can_step(c) ==> #[trigger] final(self).parent().can_step(c),
    {
        let index = self.parent.index;
        let ghost before = self.parent;
        let r = self.parent.step(index);
        proof {
            self.parent.inner.lemma_positions();
        }
        let ghost after_step = self.parent;
        self.parent.index = index.wrapping_add(1);
        proof {
            assert forall|c: usize| before.can_step(c) implies #[trigger] self.parent.can_step(c) by {
                assert(after_step.can_step(c));
            }
            assert forall|j: int| j != index implies #[trigger] self.parent.remaining(j) == (if before.discards(
                index as int,
                j,
            ) {
                Seq::empty()
            } else {
                before.remaining(j)
            }) by {
                assert(self.parent.remaining(j) == after_step.remaining(j));
            }
        }
        match r {
            Some(elt) => {
                let c = Chunk { index, first: Some(elt) };
                proof {
                    assert(c.held() + self.parent.remaining(index as int) =~= before.remaining(
                        index as int,
                    ));
                }
                Some(c)
            },
            None => None,
        }
    }
}

/// One chunk: the items of one run of consecutive positions.
pub struct Chunk<T> {
    index: usize,
    first: Option<T>,
}

impl<T> Chunk<T> {
    /// The index of this chunk among all chunks.
    pub closed spec fn index(&self) -> usize {
        self.index
    }

    /// The item that this chunk holds itself (its first item, until taken).
    pub closed spec fn held(&self) -> Seq<T> {
        match self.first {
            Some(x) => seq![x],
            None => Seq::empty(),
        }
    }

    /// The items that this chunk can still hand out, given the shared state.
    pub open spec fn remaining_in(&self, chunks: Chunks<T>) -> Seq<T> {
        self.held() + chunks.parent().remaining(self.index() as int)
    }

    /// Hands out the next item of this chunk.
    pub fn next(&mut self, chunks: &mut Chunks<T>) -> (r: Option<T>)
        requires
            old(chunks).parent().wf(),
            old(chunks).parent().can_step(old(self).index()),
        ensures
            final(self).index() == old(self).index(),
            final(chunks).parent().wf(),
            final(chunks).parent().items() == old(chunks).parent().items(),
            final(chunks).parent().chunk_size() == old(chunks).parent().chunk_size(),
            final(chunks).parent().next_index() == old(chunks).parent().next_index(),
            final(chunks).parent().dropped() == old(chunks).parent().dropped(),
            stepped(old(self).remaining_in(*old(chunks)), r, final(self).remaining_in(*final(chunks))),
            forall|j: int|
                j != old(self).index() ==> #[trigger] final(chunks).parent().remaining(j) == (if old(
                    self,
                ).held().len() == 0 && old(chunks).parent().discards(old(self).index() as int, j) {
                    Seq::empty()
                } else {
                    old(chunks).parent().remaining(j)
                }),
            forall|c: usize| old(chunks).parent().can_step(c) ==> #[trigger] final(chunks).parent().can_step(c),
    {
        if let Some(elt) = self.first.take() {
            proof {
                assert(self.remaining_in(*chunks) =~= old(self).remaining_in(*chunks).drop_first());
            }
            return Some(elt);
        }
        let r = chunks.parent.step(self.index);
        proof {
            assert(self.remaining_in(*chunks) =~= chunks.parent().remaining(self.index as int));
            assert(old(self).remaining_in(*old(chunks)) =~= old(chunks).parent().remaining(
                self.index as int,
            ));
        }
        r
    }

    /// Releases this chunk: its items that are not yet buffered are skipped
    /// from now on instead of being buffered.
    pub fn drop(self, chunks: &mut Chunks<T>)
        requires
            old(chunks).parent().wf(),
        ensures
            final(chunks).parent().wf(),
            final(chunks).parent().items() == old(chunks).parent().items(),
            final(chunks).parent().chunk_size() == old(chunks).parent().chunk_size(),
            final(chunks).parent().next_index() == old(chunks).parent().next_index(),
            final(chunks).parent().dropped() == (if old(chunks).parent().dropped() == usize::MAX
                || self.index() > old(chunks).parent().dropped() {
                self.index()
            } else {
                old(chunks).parent().dropped()
            }),
            forall|j: int| final(chunks).parent().remaining(j) == old(chunks).parent().remaining(j),
            forall|c: usize| old(chunks).parent().can_step(c) ==> #[trigger] final(chunks).parent().can_step(c),
    {
        chunks.parent.drop_group(self.index);
    }
}

} // verus!
