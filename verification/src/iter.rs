//! The outcome reorderer: consumes an arbitrary stream of outcomes and
//! yields them in strictly ascending `index` order starting at 0, buffering
//! outcomes that arrive early.

use vstd::prelude::*;
use crate::outcome::Outcome;
use crate::outcome::spec_result_of;
use crate::outcome::spec_output_of;

verus! {

/// No two outcomes carry the same index: the single-outcome-per-task
/// invariant of a well-formed outcome stream.
pub open spec fn distinct_indices<I, O, E>(s: Seq<Outcome<I, O, E>>) -> bool {
    forall|a: int, b: int|
        0 <= a < b < s.len() ==> (#[trigger] s[a]).spec_index() != (#[trigger] s[b]).spec_index()
}

/// Every index leaves room for the cursor to pass it.
pub open spec fn bounded_indices<I, O, E>(s: Seq<Outcome<I, O, E>>) -> bool {
    forall|k: int| 0 <= k < s.len() ==> (#[trigger] s[k]).spec_index() < usize::MAX
}

/// A stream of outcomes the reorderer accepts: one outcome per index, each
/// index below the machine bound.
pub open spec fn valid_source<I, O, E>(s: Seq<Outcome<I, O, E>>) -> bool {
    distinct_indices(s) && bounded_indices(s)
}

/// Some outcome in the sequence carries the given index.
pub open spec fn has_index<I, O, E>(s: Seq<Outcome<I, O, E>>, i: int) -> bool {
    exists|j: int| 0 <= j < s.len() && (#[trigger] s[j]).spec_index() == i
}

/// What reordering a source into `r` means: position `k` of `r` holds an
/// outcome of the source whose index is exactly `k`.
pub open spec fn ordered_reassembly<I, O, E>(
    src: Seq<Outcome<I, O, E>>,
    r: Seq<Outcome<I, O, E>>,
) -> bool {
    &&& r.len() <= src.len()
    &&& forall|k: int| 0 <= k < r.len() ==> (#[trigger] r[k]).spec_index() == k
    &&& forall|k: int| 0 <= k < r.len() ==> src.contains(#[trigger] r[k])
}

/// An iterator that returns outcomes in `index` order.
///
/// Outcomes pulled from the source ahead of the cursor are buffered until
/// the cursor reaches their index. The iterator ends when the source is
/// exhausted and the next index is not in the buffer, or when the configured
/// limit is reached.
pub struct OutcomeIterator<I, O, E> {
    inner: Vec<Outcome<I, O, E>>,
    buf: Vec<(usize, Outcome<I, O, E>)>,
    next_index: usize,
    limit: Option<usize>,
}

impl<I, O, E> OutcomeIterator<I, O, E> {
    /// The outcomes not yet pulled from the source, in arrival order.
    pub closed spec fn rem(self) -> Seq<Outcome<I, O, E>> {
        self.inner@
    }

    /// The buffered outcomes, each keyed by its index.
    pub closed spec fn buf_entries(self) -> Seq<(usize, Outcome<I, O, E>)> {
        self.buf@
    }

    /// The index the next yielded outcome will carry.
    pub closed spec fn cursor(self) -> usize {
        self.next_index
    }

    /// The cap on how many outcomes are yielded, if one was configured.
    pub closed spec fn spec_limit(self) -> Option<usize> {
        self.limit
    }

    /// How many outcomes are still owed to the consumer: what remains of
    /// the source plus what sits in the buffer.
    pub open spec fn pending_len(self) -> nat {
        self.rem().len() + self.buf_entries().len()
    }

    /// The outcome is still owed to the consumer: it remains in the source
    /// or sits in the buffer.
    pub open spec fn pending_has(self, x: Outcome<I, O, E>) -> bool {
        self.rem().contains(x) || exists|j: int|
            0 <= j < self.buf_entries().len() && (#[trigger] self.buf_entries()[j]).1 == x
    }

    /// An outcome with the given index is still owed to the consumer.
    pub open spec fn pending_has_index(self, i: int) -> bool {
        has_index(self.rem(), i) || exists|j: int|
            0 <= j < self.buf_entries().len() && (#[trigger] self.buf_entries()[j]).0 == i
    }

    /// The iterator's invariant: the outcomes still owed have one outcome
    /// per index, all their indices are at or past the cursor and below the
    /// machine bound, and each buffer entry is keyed by its outcome's index.
    pub open spec fn wf(self) -> bool {
        &&& distinct_indices(self.rem())
        &&& bounded_indices(self.rem())
        &&& (forall|a: int, b: int|
            0 <= a < b < self.buf_entries().len() ==> (#[trigger] self.buf_entries()[a]).0 != (
            #[trigger] self.buf_entries()[b]).0)
        &&& (forall|j: int|
            0 <= j < self.buf_entries().len() ==> (#[trigger] self.buf_entries()[j]).0
                == self.buf_entries()[j].1.spec_index())
        &&& (forall|j: int|
            0 <= j < self.buf_entries().len() ==> (#[trigger] self.buf_entries()[j]).0
                < usize::MAX)
        &&& (forall|j: int, k: int|
            0 <= j < self.buf_entries().len() && 0 <= k < self.rem().len() ==> (
            #[trigger] self.buf_entries()[j]).0 != (#[trigger] self.rem()[k]).spec_index())
        &&& (forall|k: int|
            0 <= k < self.rem().len() ==> (#[trigger] self.rem()[k]).spec_index()
                >= self.cursor())
        &&& (forall|j: int|
            0 <= j < self.buf_entries().len() ==> (#[trigger] self.buf_entries()[j]).0
                >= self.cursor())
    }

    /// Creates a new `OutcomeIterator` that will return ordered outcomes
    /// from the given source. Items are buffered until the next index is
    /// available. This iterator continues until the source is exhausted and
    /// the next index is not in the buffer.
    pub fn new(inner: Vec<Outcome<I, O, E>>) -> (r: OutcomeIterator<I, O, E>)
        requires
            valid_source(inner@),
        ensures
            r.wf(),
            r.rem() == inner@,
            r.buf_entries().len() == 0,
            r.cursor() == 0,
            r.spec_limit() is None,
    {
        OutcomeIterator { inner, buf: Vec::new(), next_index: 0, limit: None }
    }

    /// Creates a new `OutcomeIterator` that will return up to `limit`
    /// ordered outcomes from the given source. Items are buffered until the
    /// next index is available. This iterator continues until the limit is
    /// reached or the source is exhausted and the next index is not in the
    /// buffer.
    pub fn with_limit(inner: Vec<Outcome<I, O, E>>, limit: usize) -> (r: OutcomeIterator<I, O, E>)
        requires
            valid_source(inner@),
        ensures
            r.wf(),
            r.rem() == inner@,
            r.buf_entries().len() == 0,
            r.cursor() == 0,
            r.spec_limit() == Some(limit),
    {
        OutcomeIterator { inner, buf: Vec::new(), next_index: 0, limit: Some(limit) }
    }

    /// Removes and returns the buffered outcome keyed by `key`, if any.
    fn buf_take(&mut self, key: usize) -> (r: Option<Outcome<I, O, E>>)
        requires
            forall|a: int, b: int|
                0 <= a < b < old(self).buf_entries().len() ==> (#[trigger] old(
                    self,
                ).buf_entries()[a]).0 != (#[trigger] old(self).buf_entries()[b]).0,
        ensures
            final(self).rem() == old(self).rem(),
            final(self).cursor() == old(self).cursor(),
            final(self).spec_limit() == old(self).spec_limit(),
            match r {
                Some(o) => {
                    &&& old(self).buf_entries().contains((key, o))
                    &&& final(self).buf_entries().len() == old(self).buf_entries().len() - 1
                    &&& forall|e: (usize, Outcome<I, O, E>)|
                        final(self).buf_entries().contains(e) ==> old(self).buf_entries().contains(e)
                    &&& forall|e: (usize, Outcome<I, O, E>)|
                        old(self).buf_entries().contains(e) && e != (key, o)
                            ==> final(self).buf_entries().contains(e)
                    &&& forall|j: int|
                        0 <= j < final(self).buf_entries().len() ==> (#[trigger] final(self).buf_entries()[j]).0
                            != key
                    &&& forall|a: int, b: int|
                        0 <= a < b < final(self).buf_entries().len() ==> (
                        #[trigger] final(self).buf_entries()[a]).0 != (
                        #[trigger] final(self).buf_entries()[b]).0
                },
                None => {
                    &&& final(self).buf_entries() == old(self).buf_entries()
                    &&& forall|j: int|
                        0 <= j < final(self).buf_entries().len() ==> (#[trigger] final(self).buf_entries()[j]).0
                            != key
                },
            },
    {
        let mut j: usize = 0;
        proof {
            assert(self.buf@ == old(self).buf_entries());
            assert forall|a: int, b: int| 0 <= a < b < self.buf@.len() implies (
            #[trigger] self.buf@[a]).0 != (#[trigger] self.buf@[b]).0 by {
                assert(old(self).buf_entries()[a] == self.buf@[a]);
                assert(old(self).buf_entries()[b] == self.buf@[b]);
            }
        }
        while j < self.buf.len()
            invariant
                j <= self.buf.len(),
                forall|m: int| 0 <= m < j ==> (#[trigger] self.buf@[m]).0 != key,
                *self == *old(self),
                forall|a: int, b: int|
                    0 <= a < b < self.buf@.len() ==> (#[trigger] self.buf@[a]).0 != (
                    #[trigger] self.buf@[b]).0,
            decreases self.buf.len() - j,
        {
            if self.buf[j].0 == key {
                let ghost old_b = self.buf@;
                let entry = self.buf.swap_remove(j);
                proof {
                    let new_b = self.buf@;
                    assert(old_b.contains((key, entry.1))) by {
                        assert(old_b[j as int] == (key, entry.1));
                    }
                    assert forall|e: (usize, Outcome<I, O, E>)| new_b.contains(e) implies old_b
                        .contains(e) by {
                        let m = choose|m: int| 0 <= m < new_b.len() && new_b[m] == e;
                        if m == j {
                            assert(old_b[old_b.len() - 1] == e);
                        } else {
                            assert(old_b[m] == e);
                        }
                    }
                    assert forall|e: (usize, Outcome<I, O, E>)|
                        old_b.contains(e) && e != (key, entry.1) implies new_b.contains(e) by {
                        let m = choose|m: int| 0 <= m < old_b.len() && old_b[m] == e;
                        if m == old_b.len() - 1 {
                            assert(j < old_b.len() - 1) by {
                                if j == old_b.len() - 1 {
                                    assert(old_b[m] == (key, entry.1));
                                }
                            }
                            assert(new_b[j as int] == e);
                        } else {
                            assert(m != j) by {
                                if m == j {
                                    assert(old_b[m] == (key, entry.1));
                                }
                            }
                            assert(new_b[m] == e);
                        }
                    }
                    assert(forall|a: int, b: int|
                        0 <= a < b < old_b.len() ==> (#[trigger] old_b[a]).0 != (
                        #[trigger] old_b[b]).0);
                    assert forall|m: int| 0 <= m < new_b.len() implies (#[trigger] new_b[m]).0
                        != key by {
                        assert(old_b[j as int].0 == key);
                        if m == j {
                            assert(j < old_b.len() - 1);
                            assert(new_b[m] == old_b[old_b.len() - 1]);
                            assert(old_b[j as int].0 != old_b[old_b.len() - 1].0);
                        } else {
                            assert(new_b[m] == old_b[m]);
                            if m < j {
                                assert(old_b[m].0 != old_b[j as int].0);
                            } else {
                                assert(old_b[j as int].0 != old_b[m].0);
                            }
                        }
                    }
                    assert forall|a: int, b: int| 0 <= a < b < new_b.len() implies (
                    #[trigger] new_b[a]).0 != (#[trigger] new_b[b]).0 by {
                        let pa: int = if a == j { old_b.len() - 1 } else { a };
                        let pb: int = if b == j { old_b.len() - 1 } else { b };
                        assert(new_b[a] == old_b[pa]);
                        assert(new_b[b] == old_b[pb]);
                        if pa < pb {
                            assert(old_b[pa].0 != old_b[pb].0);
                        } else {
                            assert(old_b[pb].0 != old_b[pa].0);
                        }
                    }
                }
                return Some(entry.1);
            }
            j = j + 1;
        }
        None
    }

    /// Yields the outcome whose index is the cursor, taking it from the
    /// buffer or pulling from the source and buffering what arrives early,
    /// and advances the cursor. Returns `None` once the limit is reached, or
    /// once the source is exhausted and the cursor's index is not buffered.
    pub fn next(&mut self) -> (r: Option<Outcome<I, O, E>>)
        requires
            old(self).wf(),
        ensures
            final(self).wf(),
            final(self).spec_limit() == old(self).spec_limit(),
            match r {
                Some(o) => {
                    &&& o.spec_index() == old(self).cursor()
                    &&& final(self).cursor() == old(self).cursor() + 1
                    &&& old(self).pending_has(o)
                    &&& !final(self).pending_has(o)
                    &&& forall|x: Outcome<I, O, E>|
                        final(self).pending_has(x) ==> old(self).pending_has(x)
                    &&& forall|x: Outcome<I, O, E>|
                        old(self).pending_has(x) && x != o ==> final(self).pending_has(x)
                    &&& final(self).pending_len() == old(self).pending_len() - 1
                    &&& (old(self).spec_limit() matches Some(l) ==> old(self).cursor() < l)
                },
                None => {
                    &&& final(self).cursor() == old(self).cursor()
                    &&& (forall|x: Outcome<I, O, E>|
                        final(self).pending_has(x) <==> old(self).pending_has(x))
                    &&& final(self).pending_len() == old(self).pending_len()
                    &&& match old(self).spec_limit() {
                        Some(l) => old(self).cursor() >= l || (final(self).rem().len() == 0
                            && !final(self).pending_has_index(old(self).cursor() as int)),
                        None => final(self).rem().len() == 0 && !final(self).pending_has_index(
                            old(self).cursor() as int,
                        ),
                    }
                },
            },
    {
        loop
            invariant
                self.wf(),
                self.cursor() == old(self).cursor(),
                self.spec_limit() == old(self).spec_limit(),
                forall|x: Outcome<I, O, E>| self.pending_has(x) <==> old(self).pending_has(x),
                self.pending_len() == old(self).pending_len(),
            decreases self.rem().len(),
        {
            match self.limit {
                Some(l) => {
                    if self.next_index >= l {
                        return None;
                    }
                },
                None => {},
            }
            let ghost pre = *self;
            let from_buf = self.buf_take(self.next_index);
            match from_buf {
                Some(o) => {
                    proof {
                        let key = pre.cursor();
                        assert(pre.buf_entries().contains((key, o)));
                        let j = choose|j: int|
                            0 <= j < pre.buf_entries().len() && pre.buf_entries()[j] == (key, o);
                        assert(o.spec_index() == key);
                        assert(pre.pending_has(o));
                        assert(key < usize::MAX);
                    }
                    self.next_index = self.next_index + 1;
                    proof {
                        let key = pre.cursor();
                        let nb = self.buf_entries();
                        let ob = pre.buf_entries();
                        assert forall|j: int|
                            0 <= j < nb.len() implies (#[trigger] nb[j]).0 == nb[j].1.spec_index()
                            && nb[j].0 < usize::MAX && nb[j].0 >= self.cursor() by {
                            assert(nb.contains(nb[j]));
                            assert(ob.contains(nb[j]));
                            let m = choose|m: int| 0 <= m < ob.len() && ob[m] == nb[j];
                            assert(ob[m].0 >= key && ob[m].0 != key);
                        }
                        assert forall|j: int, k: int|
                            0 <= j < nb.len() && 0 <= k < self.rem().len() implies (
                        #[trigger] nb[j]).0 != (#[trigger] self.rem()[k]).spec_index() by {
                            assert(nb.contains(nb[j]));
                            assert(ob.contains(nb[j]));
                            let m = choose|m: int| 0 <= m < ob.len() && ob[m] == nb[j];
                            assert(ob[m].0 != pre.rem()[k].spec_index());
                        }
                        assert forall|k: int|
                            0 <= k < self.rem().len() implies (
                        #[trigger] self.rem()[k]).spec_index() >= self.cursor() by {
                            assert(pre.rem()[k].spec_index() >= key);
                            if pre.rem()[k].spec_index() == key {
                                let j0 = choose|j0: int|
                                    0 <= j0 < ob.len() && ob[j0] == (key, o);
                                assert(ob[j0].0 == pre.rem()[k].spec_index());
                            }
                        }
                        assert(!self.pending_has(o)) by {
                            if self.rem().contains(o) {
                                let k = choose|k: int|
                                    0 <= k < self.rem().len() && self.rem()[k] == o;
                                assert(self.rem()[k].spec_index() >= self.cursor());
                            }
                            if exists|j: int|
                                0 <= j < nb.len() && (#[trigger] nb[j]).1 == o {
                                let j = choose|j: int| 0 <= j < nb.len() && nb[j].1 == o;
                                assert(nb[j].0 == o.spec_index());
                            }
                        }
                        assert forall|x: Outcome<I, O, E>|
                            self.pending_has(x) implies pre.pending_has(x) by {
                            if !self.rem().contains(x) {
                                let j = choose|j: int|
                                    0 <= j < nb.len() && (#[trigger] nb[j]).1 == x;
                                assert(nb.contains(nb[j]));
                                assert(ob.contains(nb[j]));
                                let m = choose|m: int| 0 <= m < ob.len() && ob[m] == nb[j];
                            }
                        }
                        assert forall|x: Outcome<I, O, E>|
                            pre.pending_has(x) && x != o implies self.pending_has(x) by {
                            if !pre.rem().contains(x) {
                                let j = choose|j: int|
                                    0 <= j < ob.len() && (#[trigger] ob[j]).1 == x;
                                assert(ob.contains(ob[j]));
                                assert(ob[j] != (key, o)) by {
                                    if ob[j] == (key, o) {
                                        assert(x == o);
                                    }
                                }
                                assert(nb.contains(ob[j]));
                                let m = choose|m: int| 0 <= m < nb.len() && nb[m] == ob[j];
                            }
                        }
                    }
                    return Some(o);
                },
                None => {
                    if self.inner.len() == 0 {
                        proof {
                            assert(!self.pending_has_index(self.cursor() as int)) by {
                                let c = self.cursor() as int;
                                if has_index(self.rem(), c) {
                                    let k = choose|k: int|
                                        0 <= k < self.rem().len() && (
                                        #[trigger] self.rem()[k]).spec_index() == c;
                                }
                                if exists|j: int|
                                    0 <= j < self.buf_entries().len() && (
                                    #[trigger] self.buf_entries()[j]).0 == c {
                                    let j = choose|j: int|
                                        0 <= j < self.buf_entries().len() && (
                                        #[trigger] self.buf_entries()[j]).0 == c;
                                }
                            }
                        }
                        return None;
                    }
                    let o = self.inner.remove(0);
                    let ghost mid = *self;
                    proof {
                        assert(pre.rem()[0] == o);
                        assert(mid.rem() =~= pre.rem().subrange(1, pre.rem().len() as int));
                        assert(forall|i: int|
                            0 <= i < mid.rem().len() ==> mid.rem()[i] == pre.rem()[i + 1]);
                        assert(pre.rem().contains(o)) by {
                            assert(pre.rem()[0] == o);
                        }
                        assert(pre.pending_has(o));
                    }
                    let idx = o.index();
                    if idx == self.next_index {
                        self.next_index = self.next_index + 1;
                        proof {
                            let key = pre.cursor();
                            let nb = self.buf_entries();
                            assert(nb == pre.buf_entries());
                            assert forall|k: int|
                                0 <= k < self.rem().len() implies (
                            #[trigger] self.rem()[k]).spec_index() >= self.cursor() by {
                                assert(self.rem()[k] == pre.rem()[k + 1]);
                                assert(pre.rem()[k + 1].spec_index() >= key);
                                assert(pre.rem()[0].spec_index() != pre.rem()[k + 1].spec_index());
                            }
                            assert forall|j: int|
                                0 <= j < nb.len() implies (#[trigger] nb[j]).0
                                >= self.cursor() by {
                                assert(nb[j].0 >= key && nb[j].0 != key);
                            }
                            assert(!self.pending_has(o)) by {
                                if self.rem().contains(o) {
                                    let k = choose|k: int|
                                        0 <= k < self.rem().len() && self.rem()[k] == o;
                                    assert(self.rem()[k].spec_index() >= self.cursor());
                                }
                                if exists|j: int|
                                    0 <= j < nb.len() && (#[trigger] nb[j]).1 == o {
                                    let j = choose|j: int| 0 <= j < nb.len() && nb[j].1 == o;
                                    assert(nb[j].0 == o.spec_index());
                                    assert(nb[j].0 != key);
                                }
                            }
                            assert forall|x: Outcome<I, O, E>|
                                self.pending_has(x) implies pre.pending_has(x) by {
                                if self.rem().contains(x) {
                                    let k = choose|k: int|
                                        0 <= k < self.rem().len() && self.rem()[k] == x;
                                    assert(pre.rem()[k + 1] == x);
                                    assert(pre.rem().contains(x));
                                }
                            }
                            assert forall|x: Outcome<I, O, E>|
                                pre.pending_has(x) && x != o implies self.pending_has(x) by {
                                if pre.rem().contains(x) {
                                    let k = choose|k: int|
                                        0 <= k < pre.rem().len() && pre.rem()[k] == x;
                                    assert(k != 0);
                                    assert(self.rem()[k - 1] == x);
                                    assert(self.rem().contains(x));
                                }
                            }
                        }
                        return Some(o);
                    } else {
                        proof {
                            assert(idx >= pre.cursor() && idx != pre.cursor());
                            assert(idx == o.spec_index());
                        }
                        self.buf.push((idx, o));
                        proof {
                            let nb = self.buf_entries();
                            let ob = pre.buf_entries();
                            assert(nb =~= ob.push((idx, o)));
                            assert(forall|j: int| 0 <= j < ob.len() ==> nb[j] == ob[j]);
                            assert(nb[nb.len() - 1] == (idx, o));
                            assert forall|a: int, b: int| 0 <= a < b < nb.len() implies (
                            #[trigger] nb[a]).0 != (#[trigger] nb[b]).0 by {
                                if b == nb.len() - 1 {
                                    assert(nb[a] == ob[a]);
                                    assert(ob[a].0 != pre.rem()[0].spec_index());
                                } else {
                                    assert(nb[a] == ob[a] && nb[b] == ob[b]);
                                }
                            }
                            assert forall|j: int, k: int|
                                0 <= j < nb.len() && 0 <= k < self.rem().len() implies (
                            #[trigger] nb[j]).0 != (#[trigger] self.rem()[k]).spec_index() by {
                                assert(self.rem()[k] == pre.rem()[k + 1]);
                                if j == nb.len() - 1 {
                                    assert(nb[j].0 == pre.rem()[0].spec_index());
                                    assert(pre.rem()[0].spec_index() != pre.rem()[k
                                        + 1].spec_index());
                                } else {
                                    assert(nb[j] == ob[j]);
                                    assert(ob[j].0 != pre.rem()[k + 1].spec_index());
                                }
                            }
                            assert forall|x: Outcome<I, O, E>|
                                self.pending_has(x) implies pre.pending_has(x) by {
                                if self.rem().contains(x) {
                                    let k = choose|k: int|
                                        0 <= k < self.rem().len() && self.rem()[k] == x;
                                    assert(pre.rem()[k + 1] == x);
                                    assert(pre.rem().contains(x));
                                } else {
                                    let j = choose|j: int|
                                        0 <= j < nb.len() && (#[trigger] nb[j]).1 == x;
                                    if j < nb.len() - 1 {
                                        assert(ob[j].1 == x);
                                    } else {
                                        assert(x == o);
                                        assert(pre.rem().contains(x));
                                    }
                                }
                            }
                            assert forall|x: Outcome<I, O, E>|
                                pre.pending_has(x) implies self.pending_has(x) by {
                                if pre.rem().contains(x) {
                                    let k = choose|k: int|
                                        0 <= k < pre.rem().len() && pre.rem()[k] == x;
                                    if k == 0 {
                                        assert(nb[nb.len() - 1].1 == x);
                                    } else {
                                        assert(self.rem()[k - 1] == x);
                                        assert(self.rem().contains(x));
                                    }
                                } else {
                                    let j = choose|j: int|
                                        0 <= j < ob.len() && (#[trigger] ob[j]).1 == x;
                                    assert(nb[j].1 == x);
                                }
                            }
                        }
                    }
                },
            }
        }
    }
}

/// The first `n` outcomes of a stream, or all of it when it is shorter:
/// what the unordered take variants consume.
pub open spec fn prefix<I, O, E>(s: Seq<Outcome<I, O, E>>, n: int) -> Seq<Outcome<I, O, E>> {
    if n <= s.len() {
        s.take(n)
    } else {
        s
    }
}

/// No element of the stream is a panicked or an unprocessed outcome, so
/// each converts to a task result.
pub open spec fn all_convertible<I, O, E>(s: Seq<Outcome<I, O, E>>) -> bool {
    forall|k: int|
        0 <= k < s.len() ==> !((#[trigger] s[k]) is Panic) && !(s[k] is Unprocessed)
}

/// Every element of the stream is a success, so each carries an output.
pub open spec fn all_success<I, O, E>(s: Seq<Outcome<I, O, E>>) -> bool {
    forall|k: int| 0 <= k < s.len() ==> (#[trigger] s[k]) is Success
}

/// Runs a reorder iterator to its end and collects what it yields.
fn collect_ordered<I, O, E>(it: OutcomeIterator<I, O, E>) -> (r: Vec<Outcome<I, O, E>>)
    requires
        it.wf(),
        it.cursor() == 0,
    ensures
        forall|k: int| 0 <= k < r@.len() ==> (#[trigger] r@[k]).spec_index() == k,
        forall|k: int| 0 <= k < r@.len() ==> it.pending_has(#[trigger] r@[k]),
        r@.len() <= it.pending_len(),
        match it.spec_limit() {
            Some(l) => r@.len() <= l && (r@.len() == l || !it.pending_has_index(r@.len() as int)),
            None => !it.pending_has_index(r@.len() as int),
        },
{
    let mut cur = it;
    let mut out: Vec<Outcome<I, O, E>> = Vec::new();
    loop
        invariant
            cur.wf(),
            cur.spec_limit() == it.spec_limit(),
            cur.cursor() == out@.len(),
            it.wf(),
            cur.pending_len() + out@.len() == it.pending_len(),
            forall|k: int| 0 <= k < out@.len() ==> (#[trigger] out@[k]).spec_index() == k,
            forall|k: int| 0 <= k < out@.len() ==> it.pending_has(#[trigger] out@[k]),
            forall|x: Outcome<I, O, E>|
                cur.pending_has(x) <==> (it.pending_has(x) && x.spec_index() >= out@.len()),
            (it.spec_limit() matches Some(l) ==> out@.len() <= l),
        decreases cur.pending_len(),
    {
        let ghost it_pre = it;
        match cur.next() {
            Some(o) => {
                proof {
                    assert(it.pending_has(o)) by {
                        assert(it_pre.pending_has(o));
                    }
                    assert forall|x: Outcome<I, O, E>| cur.pending_has(x) implies (
                    it.pending_has(x) && x.spec_index() >= out@.len() + 1) by {
                        assert(it_pre.pending_has(x));
                        assert(x.spec_index() >= cur.cursor()) by {
                            if cur.rem().contains(x) {
                                let k = choose|k: int|
                                    0 <= k < cur.rem().len() && cur.rem()[k] == x;
                                assert(cur.rem()[k].spec_index() >= cur.cursor());
                            } else {
                                let j = choose|j: int|
                                    0 <= j < cur.buf_entries().len() && (
                                    #[trigger] cur.buf_entries()[j]).1 == x;
                                assert(cur.buf_entries()[j].0 >= cur.cursor());
                                assert(cur.buf_entries()[j].0 == x.spec_index());
                            }
                        }
                    }
                    assert forall|x: Outcome<I, O, E>|
                        it.pending_has(x) && x.spec_index() >= out@.len() + 1 implies it
                        .pending_has(x) by {
                        assert(it_pre.pending_has(x));
                        assert(x != o);
                    }
                }
                out.push(o);
            },
            None => {
                proof {
                    let n = out@.len() as int;
                    match it.spec_limit() {
                        Some(l) => {
                            if n < l {
                                assert(!it.pending_has_index(n)) by {
                                    if it.pending_has_index(n) {
                                        let x: Outcome<I, O, E> = if has_index(it.rem(), n) {
                                            let k = choose|k: int|
                                                0 <= k < it.rem().len() && (
                                                #[trigger] it.rem()[k]).spec_index() == n;
                                            it.rem()[k]
                                        } else {
                                            let j = choose|j: int|
                                                0 <= j < it.buf_entries().len() && (
                                                #[trigger] it.buf_entries()[j]).0 == n;
                                            it.buf_entries()[j].1
                                        };
                                        assert(it.pending_has(x) && x.spec_index() == n);
                                        assert(it_pre.pending_has(x));
                                        assert(cur.pending_has(x));
                                        assert(cur.rem().len() == 0);
                                        let j = choose|j: int|
                                            0 <= j < cur.buf_entries().len() && (
                                            #[trigger] cur.buf_entries()[j]).1 == x;
                                        assert(cur.buf_entries()[j].0 == n);
                                        assert(cur.pending_has_index(n));
                                    }
                                }
                            }
                        },
                        None => {
                            assert(!it.pending_has_index(n)) by {
                                if it.pending_has_index(n) {
                                    let x: Outcome<I, O, E> = if has_index(it.rem(), n) {
                                        let k = choose|k: int|
                                            0 <= k < it.rem().len() && (
                                            #[trigger] it.rem()[k]).spec_index() == n;
                                        it.rem()[k]
                                    } else {
                                        let j = choose|j: int|
                                            0 <= j < it.buf_entries().len() && (
                                            #[trigger] it.buf_entries()[j]).0 == n;
                                        it.buf_entries()[j].1
                                    };
                                    assert(it.pending_has(x) && x.spec_index() == n);
                                    assert(it_pre.pending_has(x));
                                    assert(cur.pending_has(x));
                                    assert(cur.rem().len() == 0);
                                    let j = choose|j: int|
                                        0 <= j < cur.buf_entries().len() && (
                                        #[trigger] cur.buf_entries()[j]).1 == x;
                                    assert(cur.buf_entries()[j].0 == n);
                                    assert(cur.pending_has_index(n));
                                }
                            }
                        },
                    }
                }
                return out;
            },
        }
    }
}

/// Converts each outcome in order to its task result.
fn convert_results<I, O, E>(v: Vec<Outcome<I, O, E>>) -> (r: Vec<Result<O, E>>)
    requires
        all_convertible(v@),
    ensures
        r@.len() == v@.len(),
        forall|k: int| 0 <= k < v@.len() ==> r@[k] == spec_result_of(#[trigger] v@[k]),
{
    let ghost orig = v@;
    let mut v = v;
    let mut out: Vec<Result<O, E>> = Vec::new();
    while v.len() > 0
        invariant
            out@.len() + v@.len() == orig.len(),
            v@ == orig.subrange(out@.len() as int, orig.len() as int),
            all_convertible(orig),
            forall|k: int| 0 <= k < out@.len() ==> out@[k] == spec_result_of(#[trigger] orig[k]),
        decreases v@.len(),
    {
        let ghost n = out@.len() as int;
        let o = v.remove(0);
        proof {
            assert(o == orig[n]);
            assert(v@ =~= orig.subrange(n + 1, orig.len() as int));
        }
        out.push(o.into_result());
    }
    out
}

/// Unwraps each success outcome in order to its output value.
fn convert_outputs<I, O, E>(v: Vec<Outcome<I, O, E>>) -> (r: Vec<O>)
    requires
        all_success(v@),
    ensures
        r@.len() == v@.len(),
        forall|k: int| 0 <= k < v@.len() ==> r@[k] == spec_output_of(#[trigger] v@[k]),
{
    let ghost orig = v@;
    let mut v = v;
    let mut out: Vec<O> = Vec::new();
    while v.len() > 0
        invariant
            out@.len() + v@.len() == orig.len(),
            v@ == orig.subrange(out@.len() as int, orig.len() as int),
            all_success(orig),
            forall|k: int| 0 <= k < out@.len() ==> out@[k] == spec_output_of(#[trigger] orig[k]),
        decreases v@.len(),
    {
        let ghost n = out@.len() as int;
        let o = v.remove(0);
        proof {
            assert(o == orig[n]);
            assert(v@ =~= orig.subrange(n + 1, orig.len() as int));
        }
        out.push(o.unwrap());
    }
    out
}

/// Position `k` of an ordered result sequence holds the task result of the
/// source outcome whose index is `k`.
pub open spec fn result_at_index<I, O, E>(src: Seq<Outcome<I, O, E>>, k: int, r: Result<O, E>) -> bool {
    exists|j: int|
        0 <= j < src.len() && (#[trigger] src[j]).spec_index() == k && r == spec_result_of(src[j])
}

/// Position `k` of an ordered output sequence holds the output of the
/// source outcome whose index is `k`.
pub open spec fn output_at_index<I, O, E>(src: Seq<Outcome<I, O, E>>, k: int, r: O) -> bool {
    exists|j: int|
        0 <= j < src.len() && (#[trigger] src[j]).spec_index() == k && r == spec_output_of(src[j])
}

/// An ordered reassembly yields outcomes in strictly ascending index order
/// with no duplicate indices.
pub proof fn lemma_ordered_ascending<I, O, E>(src: Seq<Outcome<I, O, E>>, r: Seq<Outcome<I, O, E>>)
    requires
        ordered_reassembly(src, r),
    ensures
        forall|a: int, b: int|
            0 <= a < b < r.len() ==> (#[trigger] r[a]).spec_index() < (
            #[trigger] r[b]).spec_index(),
        distinct_indices(r),
{
}

/// Two ordered reassemblies of one well-formed source that yield the same
/// number of outcomes are the same sequence.
pub proof fn lemma_index_ordered_unique<I, O, E>(
    src: Seq<Outcome<I, O, E>>,
    a: Seq<Outcome<I, O, E>>,
    b: Seq<Outcome<I, O, E>>,
)
    requires
        distinct_indices(src),
        ordered_reassembly(src, a),
        ordered_reassembly(src, b),
        a.len() == b.len(),
    ensures
        a == b,
{
    assert forall|k: int| 0 <= k < a.len() implies a[k] == b[k] by {
        let ja = choose|j: int| 0 <= j < src.len() && src[j] == a[k];
        let jb = choose|j: int| 0 <= j < src.len() && src[j] == b[k];
        if ja != jb {
            if ja < jb {
                assert(src[ja].spec_index() != src[jb].spec_index());
            } else {
                assert(src[jb].spec_index() != src[ja].spec_index());
            }
        }
    }
    assert(a =~= b);
}

/// In a strictly ascending index sequence, the index at position `k` is at
/// least `k`.
proof fn lemma_ascending_lower<I, O, E>(s: Seq<Outcome<I, O, E>>, k: int)
    requires
        forall|a: int, b: int|
            0 <= a < b < s.len() ==> (#[trigger] s[a]).spec_index() < (
            #[trigger] s[b]).spec_index(),
        0 <= k < s.len(),
    ensures
        s[k].spec_index() >= k,
    decreases k,
{
    if k > 0 {
        lemma_ascending_lower(s, k - 1);
        assert(s[k - 1].spec_index() < s[k].spec_index());
    }
}

/// In a strictly ascending index sequence whose indices stay below its
/// length, the index at position `k` is at most `k`.
proof fn lemma_ascending_upper<I, O, E>(s: Seq<Outcome<I, O, E>>, k: int)
    requires
        forall|a: int, b: int|
            0 <= a < b < s.len() ==> (#[trigger] s[a]).spec_index() < (
            #[trigger] s[b]).spec_index(),
        forall|j: int| 0 <= j < s.len() ==> (#[trigger] s[j]).spec_index() < s.len(),
        0 <= k < s.len(),
    ensures
        s[k].spec_index() <= k,
    decreases s.len() - k,
{
    if k < s.len() - 1 {
        lemma_ascending_upper(s, k + 1);
        assert(s[k].spec_index() < s[k + 1].spec_index());
    }
}

/// Sorting a complete outcome stream by index is an ordered reassembly of
/// it: when a stream with one outcome per index, all indices below its
/// length, is arranged in ascending index order, position `k` holds the
/// outcome with index `k`.
pub proof fn lemma_sorted_by_index_is_ordered<I, O, E>(
    src: Seq<Outcome<I, O, E>>,
    s: Seq<Outcome<I, O, E>>,
)
    requires
        distinct_indices(src),
        forall|j: int| 0 <= j < src.len() ==> (#[trigger] src[j]).spec_index() < src.len(),
        s.len() == src.len(),
        forall|k: int| 0 <= k < s.len() ==> src.contains(#[trigger] s[k]),
        distinct_indices(s),
        forall|a: int, b: int|
            0 <= a < b < s.len() ==> (#[trigger] s[a]).spec_index() <= (
            #[trigger] s[b]).spec_index(),
    ensures
        forall|k: int| 0 <= k < s.len() ==> (#[trigger] s[k]).spec_index() == k,
        ordered_reassembly(src, s),
{
    assert forall|a: int, b: int| 0 <= a < b < s.len() implies (#[trigger] s[a]).spec_index() < (
    #[trigger] s[b]).spec_index() by {
        assert(s[a].spec_index() != s[b].spec_index());
    }
    assert forall|j: int| 0 <= j < s.len() implies (#[trigger] s[j]).spec_index() < s.len() by {
        let m = choose|m: int| 0 <= m < src.len() && src[m] == s[j];
    }
    assert forall|k: int| 0 <= k < s.len() implies (#[trigger] s[k]).spec_index() == k by {
        lemma_ascending_lower(s, k);
        lemma_ascending_upper(s, k);
    }
}

/// Sorting the outcomes of a complete stream by index gives exactly what
/// the ordered reassembly of that stream yields.
pub proof fn lemma_sorted_matches_ordered<I, O, E>(
    src: Seq<Outcome<I, O, E>>,
    s: Seq<Outcome<I, O, E>>,
    ord: Seq<Outcome<I, O, E>>,
)
    requires
        distinct_indices(src),
        forall|j: int| 0 <= j < src.len() ==> (#[trigger] src[j]).spec_index() < src.len(),
        s.len() == src.len(),
        forall|k: int| 0 <= k < s.len() ==> src.contains(#[trigger] s[k]),
        distinct_indices(s),
        forall|a: int, b: int|
            0 <= a < b < s.len() ==> (#[trigger] s[a]).spec_index() <= (
            #[trigger] s[b]).spec_index(),
        ordered_reassembly(src, ord),
        !has_index(src, ord.len() as int),
    ensures
        s == ord,
{
    lemma_sorted_by_index_is_ordered(src, s);
    if ord.len() < s.len() {
        let w = s[ord.len() as int];
        let m = choose|m: int| 0 <= m < src.len() && src[m] == w;
        assert(src[m].spec_index() == ord.len());
        assert(has_index(src, ord.len() as int));
    }
    lemma_index_ordered_unique(src, s, ord);
}

/// A limited ordered run agrees with the unlimited one: taking up to `n`
/// outcomes in index order from a stream equals the first `n` outcomes of
/// its full ordered reassembly, element by element.
pub proof fn lemma_take_matches_ordered<I, O, E>(
    src: Seq<Outcome<I, O, E>>,
    n: int,
    a: Seq<Outcome<I, O, E>>,
    b: Seq<Outcome<I, O, E>>,
)
    requires
        distinct_indices(src),
        0 <= n,
        ordered_reassembly(src, a),
        a.len() <= n,
        a.len() < n ==> !has_index(src, a.len() as int),
        ordered_reassembly(src, b),
        !has_index(src, b.len() as int),
    ensures
        a.len() == if n <= b.len() {
            n
        } else {
            b.len() as int
        },
        a == b.take(a.len() as int),
{
    if a.len() < n && a.len() < b.len() {
        let w = b[a.len() as int];
        let j = choose|j: int| 0 <= j < src.len() && src[j] == w;
        assert(src[j].spec_index() == a.len());
        assert(has_index(src, a.len() as int));
    }
    if b.len() < a.len() {
        let w = a[b.len() as int];
        let j = choose|j: int| 0 <= j < src.len() && src[j] == w;
        assert(src[j].spec_index() == b.len());
        assert(has_index(src, b.len() as int));
    }
    let m = a.len() as int;
    assert forall|k: int| 0 <= k < m implies a[k] == b.take(m)[k] by {
        let ja = choose|j: int| 0 <= j < src.len() && src[j] == a[k];
        let jb = choose|j: int| 0 <= j < src.len() && src[j] == b[k];
        if ja != jb {
            if ja < jb {
                assert(src[ja].spec_index() != src[jb].spec_index());
            } else {
                assert(src[jb].spec_index() != src[ja].spec_index());
            }
        }
    }
    assert(a =~= b.take(m));
}

/// A stream with one outcome per index whose indices all lie below its
/// length carries every index from 0 up to its length.
pub proof fn lemma_complete_indices<I, O, E>(s: Seq<Outcome<I, O, E>>)
    requires
        distinct_indices(s),
        forall|j: int| 0 <= j < s.len() ==> (#[trigger] s[j]).spec_index() < s.len(),
    ensures
        forall|i: int| 0 <= i < s.len() ==> has_index(s, i),
{
    let idxs = s.map_values(|o: Outcome<I, O, E>| o.spec_index() as int);
    assert(idxs.no_duplicates()) by {
        assert forall|a: int, b: int|
            0 <= a < idxs.len() && 0 <= b < idxs.len() && a != b implies idxs[a] != idxs[b] by {
            if a < b {
                assert(s[a].spec_index() != s[b].spec_index());
            } else {
                assert(s[b].spec_index() != s[a].spec_index());
            }
        }
    }
    idxs.unique_seq_to_set();
    vstd::seq_lib::seq_to_set_is_finite(idxs);
    let rng = vstd::set_lib::set_int_range(0, s.len() as int);
    vstd::set_lib::lemma_int_range(0, s.len() as int);
    assert(idxs.to_set().subset_of(rng)) by {
        assert forall|x: int| idxs.to_set().contains(x) implies rng.contains(x) by {
            let k = choose|k: int| 0 <= k < idxs.len() && idxs[k] == x;
            assert(s[k].spec_index() < s.len());
        }
    }
    vstd::set_lib::lemma_subset_equality(idxs.to_set(), rng);
    assert forall|i: int| 0 <= i < s.len() implies has_index(s, i) by {
        assert(rng.contains(i));
        assert(idxs.to_set().contains(i));
        let k = choose|k: int| 0 <= k < idxs.len() && idxs[k] == i;
        assert(s[k].spec_index() == i);
    }
}

/// Derived consumers over a collection of outcomes: reordered, converted to
/// task results, or unwrapped to outputs, in full or up to a count.
pub trait OutcomeIteratorExt<I, O, E>: Sized {
    /// The outcomes this collection holds, in arrival order.
    spec fn outcome_seq(self) -> Seq<Outcome<I, O, E>>;

    /// Consumes this collection and returns its outcomes in ascending index
    /// order: position `k` holds the outcome with index `k`, and the run
    /// stops at the first index the collection does not hold.
    fn into_ordered(self) -> (r: Vec<Outcome<I, O, E>>)
        requires
            valid_source(self.outcome_seq()),
        ensures
            ordered_reassembly(self.outcome_seq(), r@),
            !has_index(self.outcome_seq(), r@.len() as int);

    /// Consumes this collection and returns up to `n` outcomes in ascending
    /// index order: the run stops when `n` outcomes have been yielded or at
    /// the first index the collection does not hold.
    fn take_ordered(self, n: usize) -> (r: Vec<Outcome<I, O, E>>)
        requires
            valid_source(self.outcome_seq()),
        ensures
            ordered_reassembly(self.outcome_seq(), r@),
            r@.len() <= n,
            r@.len() < n ==> !has_index(self.outcome_seq(), r@.len() as int);

    /// Consumes this collection and returns each outcome's task result, in
    /// arrival order.
    fn into_results(self) -> (r: Vec<Result<O, E>>)
        requires
            all_convertible(self.outcome_seq()),
        ensures
            r@.len() == self.outcome_seq().len(),
            forall|k: int|
                0 <= k < r@.len() ==> r@[k] == spec_result_of(#[trigger] self.outcome_seq()[k]);

    /// Consumes this collection and returns the task results of its first
    /// `n` outcomes, in arrival order.
    fn take_results(self, n: usize) -> (r: Vec<Result<O, E>>)
        requires
            all_convertible(self.outcome_seq()),
        ensures
            r@.len() == prefix(self.outcome_seq(), n as int).len(),
            forall|k: int|
                0 <= k < r@.len() ==> r@[k] == spec_result_of(
                    #[trigger] prefix(self.outcome_seq(), n as int)[k],
                );

    /// Consumes this collection and returns task results in ascending index
    /// order.
    fn into_ordered_results(self) -> (r: Vec<Result<O, E>>)
        requires
            valid_source(self.outcome_seq()),
            all_convertible(self.outcome_seq()),
        ensures
            r@.len() <= self.outcome_seq().len(),
            forall|k: int|
                0 <= k < r@.len() ==> result_at_index(self.outcome_seq(), k, #[trigger] r@[k]),
            !has_index(self.outcome_seq(), r@.len() as int);

    /// Consumes this collection and returns up to `n` task results in
    /// ascending index order.
    fn take_ordered_results(self, n: usize) -> (r: Vec<Result<O, E>>)
        requires
            valid_source(self.outcome_seq()),
            all_convertible(self.outcome_seq()),
        ensures
            r@.len() <= n,
            forall|k: int|
                0 <= k < r@.len() ==> result_at_index(self.outcome_seq(), k, #[trigger] r@[k]),
            r@.len() < n ==> !has_index(self.outcome_seq(), r@.len() as int);

    /// Consumes this collection and returns each outcome's output value, in
    /// arrival order.
    fn into_outputs(self) -> (r: Vec<O>)
        requires
            all_success(self.outcome_seq()),
        ensures
            r@.len() == self.outcome_seq().len(),
            forall|k: int|
                0 <= k < r@.len() ==> r@[k] == spec_output_of(#[trigger] self.outcome_seq()[k]);

    /// Consumes this collection and returns the output values of its first
    /// `n` outcomes, in arrival order.
    fn take_outputs(self, n: usize) -> (r: Vec<O>)
        requires
            all_success(self.outcome_seq()),
        ensures
            r@.len() == prefix(self.outcome_seq(), n as int).len(),
            forall|k: int|
                0 <= k < r@.len() ==> r@[k] == spec_output_of(
                    #[trigger] prefix(self.outcome_seq(), n as int)[k],
                );

    /// Consumes this collection and returns output values in ascending
    /// index order.
    fn into_ordered_outputs(self) -> (r: Vec<O>)
        requires
            valid_source(self.outcome_seq()),
            all_success(self.outcome_seq()),
        ensures
            r@.len() <= self.outcome_seq().len(),
            forall|k: int|
                0 <= k < r@.len() ==> output_at_index(self.outcome_seq(), k, #[trigger] r@[k]),
            !has_index(self.outcome_seq(), r@.len() as int);

    /// Consumes this collection and returns up to `n` output values in
    /// ascending index order.
    fn take_ordered_outputs(self, n: usize) -> (r: Vec<O>)
        requires
            valid_source(self.outcome_seq()),
            all_success(self.outcome_seq()),
        ensures
            r@.len() <= n,
            forall|k: int|
                0 <= k < r@.len() ==> output_at_index(self.outcome_seq(), k, #[trigger] r@[k]),
            r@.len() < n ==> !has_index(self.outcome_seq(), r@.len() as int);
}

impl<I, O, E> OutcomeIteratorExt<I, O, E> for Vec<Outcome<I, O, E>> {
    open spec fn outcome_seq(self) -> Seq<Outcome<I, O, E>> {
        self@
    }

    fn into_ordered(self) -> (r: Vec<Outcome<I, O, E>>) {
        let ghost src = self@;
        let it = OutcomeIterator::new(self);
        let r = collect_ordered(it);
        proof {
            assert forall|k: int| 0 <= k < r@.len() implies src.contains(#[trigger] r@[k]) by {
                assert(it.pending_has(r@[k]));
            }
        }
        r
    }

    fn take_ordered(self, n: usize) -> (r: Vec<Outcome<I, O, E>>) {
        let ghost src = self@;
        let it = OutcomeIterator::with_limit(self, n);
        let r = collect_ordered(it);
        proof {
            assert forall|k: int| 0 <= k < r@.len() implies src.contains(#[trigger] r@[k]) by {
                assert(it.pending_has(r@[k]));
            }
        }
        r
    }

    fn into_results(self) -> (r: Vec<Result<O, E>>) {
        convert_results(self)
    }

    fn take_results(self, n: usize) -> (r: Vec<Result<O, E>>) {
        let ghost src = self@;
        let mut v = self;
        v.truncate(n);
        proof {
            if n <= src.len() {
                assert(v@ =~= prefix(src, n as int));
            }
            assert(forall|k: int| 0 <= k < v@.len() ==> v@[k] == src[k]);
        }
        convert_results(v)
    }

    fn into_ordered_results(self) -> (r: Vec<Result<O, E>>) {
        let ghost src = self@;
        let ord = self.into_ordered();
        proof {
            assert forall|k: int| 0 <= k < ord@.len() implies !((#[trigger] ord@[k]) is Panic)
                && !(ord@[k] is Unprocessed) by {
                let j = choose|j: int| 0 <= j < src.len() && src[j] == ord@[k];
            }
        }
        let r = convert_results(ord);
        proof {
            assert forall|k: int| 0 <= k < r@.len() implies result_at_index(
                src,
                k,
                #[trigger] r@[k],
            ) by {
                let j = choose|j: int| 0 <= j < src.len() && src[j] == ord@[k];
                assert(src[j].spec_index() == k && r@[k] == spec_result_of(src[j]));
            }
        }
        r
    }

    fn take_ordered_results(self, n: usize) -> (r: Vec<Result<O, E>>) {
        let ghost src = self@;
        let ord = self.take_ordered(n);
        proof {
            assert forall|k: int| 0 <= k < ord@.len() implies !((#[trigger] ord@[k]) is Panic)
                && !(ord@[k] is Unprocessed) by {
                let j = choose|j: int| 0 <= j < src.len() && src[j] == ord@[k];
            }
        }
        let r = convert_results(ord);
        proof {
            assert forall|k: int| 0 <= k < r@.len() implies result_at_index(
                src,
                k,
                #[trigger] r@[k],
            ) by {
                let j = choose|j: int| 0 <= j < src.len() && src[j] == ord@[k];
                assert(src[j].spec_index() == k && r@[k] == spec_result_of(src[j]));
            }
        }
        r
    }

    fn into_outputs(self) -> (r: Vec<O>) {
        convert_outputs(self)
    }

    fn take_outputs(self, n: usize) -> (r: Vec<O>) {
        let ghost src = self@;
        let mut v = self;
        v.truncate(n);
        proof {
            if n <= src.len() {
                assert(v@ =~= prefix(src, n as int));
            }
            assert(forall|k: int| 0 <= k < v@.len() ==> v@[k] == src[k]);
        }
        convert_outputs(v)
    }

    fn into_ordered_outputs(self) -> (r: Vec<O>) {
        let ghost src = self@;
        let ord = self.into_ordered();
        proof {
            assert forall|k: int| 0 <= k < ord@.len() implies (#[trigger] ord@[k]) is Success by {
                let j = choose|j: int| 0 <= j < src.len() && src[j] == ord@[k];
            }
        }
        let r = convert_outputs(ord);
        proof {
            assert forall|k: int| 0 <= k < r@.len() implies output_at_index(
                src,
                k,
                #[trigger] r@[k],
            ) by {
                let j = choose|j: int| 0 <= j < src.len() && src[j] == ord@[k];
                assert(src[j].spec_index() == k && r@[k] == spec_output_of(src[j]));
            }
        }
        r
    }

    fn take_ordered_outputs(self, n: usize) -> (r: Vec<O>) {
        let ghost src = self@;
        let ord = self.take_ordered(n);
        proof {
            assert forall|k: int| 0 <= k < ord@.len() implies (#[trigger] ord@[k]) is Success by {
                let j = choose|j: int| 0 <= j < src.len() && src[j] == ord@[k];
            }
        }
        let r = convert_outputs(ord);
        proof {
            assert forall|k: int| 0 <= k < r@.len() implies output_at_index(
                src,
                k,
                #[trigger] r@[k],
            ) by {
                let j = choose|j: int| 0 <= j < src.len() && src[j] == ord@[k];
                assert(src[j].spec_index() == k && r@[k] == spec_output_of(src[j]));
            }
        }
        r
    }
}

} // verus!
