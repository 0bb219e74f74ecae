//! Putting the items of a stream back into generation order.
//!
//! A transport may hand over chunks out of order. Each chunk then comes
//! with its index in generation order, counted from 0, and passes through
//! a `Resequencer`: an item is released once every item before it has been
//! released, and waits until then. Of two items with the same index the
//! first to arrive counts.

use vstd::prelude::*;

verus! {

/// The index and the item of each entry, as a map, built entry by entry.
pub open spec fn entries_map<T>(s: Seq<(u64, T)>) -> Map<nat, T>
    decreases s.len(),
{
    if s.len() == 0 {
        Map::empty()
    } else {
        entries_map(s.drop_last()).insert(s.last().0 as nat, s.last().1)
    }
}

/// No index occurs at two positions.
pub open spec fn distinct_indices<T>(s: Seq<(u64, T)>) -> bool {
    forall|i: int, j: int| 0 <= i < j < s.len() ==> s[i].0 != s[j].0
}

/// Some position holds the index `k`.
pub open spec fn has_index<T>(s: Seq<(u64, T)>, k: nat) -> bool {
    exists|i: int| 0 <= i < s.len() && s[i].0 == k
}

/// The indices of `entries_map(s)` are the indices that occur in `s`.
pub proof fn lemma_entries_dom<T>(s: Seq<(u64, T)>)
    ensures
        forall|k: nat| entries_map(s).dom().contains(k) <==> has_index(s, k),
    decreases s.len(),
{
    if s.len() > 0 {
        let t = s.drop_last();
        lemma_entries_dom(t);
        assert forall|k: nat| entries_map(s).dom().contains(k) <==> has_index(s, k) by {
            if has_index(s, k) {
                let i = choose|i: int| 0 <= i < s.len() && s[i].0 == k;
                if i < s.len() - 1 {
                    assert(t[i].0 == k);
                    assert(has_index(t, k));
                }
            }
            if entries_map(s).dom().contains(k) {
                if k == s.last().0 {
                    assert(s[s.len() - 1].0 == k);
                } else {
                    assert(has_index(t, k));
                    let i = choose|i: int| 0 <= i < t.len() && t[i].0 == k;
                    assert(s[i].0 == k);
                }
            }
        }
    }
}

/// With distinct indices, every entry of `s` is an entry of the map.
pub proof fn lemma_entries_index<T>(s: Seq<(u64, T)>, i: int)
    requires
        distinct_indices(s),
        0 <= i < s.len(),
    ensures
        entries_map(s).dom().contains(s[i].0 as nat),
        entries_map(s)[s[i].0 as nat] == s[i].1,
    decreases s.len(),
{
    let t = s.drop_last();
    if i < s.len() - 1 {
        assert(distinct_indices(t)) by {
            assert forall|a: int, b: int| 0 <= a < b < t.len() implies t[a].0 != t[b].0 by {
                assert(s[a].0 != s[b].0);
            }
        }
        lemma_entries_index(t, i);
        assert(t[i] == s[i]);
        assert(s[i].0 != s[s.len() - 1].0);
    }
}

/// With distinct indices, taking an entry out of `s` takes its index out
/// of the map.
pub proof fn lemma_entries_remove<T>(s: Seq<(u64, T)>, i: int)
    requires
        distinct_indices(s),
        0 <= i < s.len(),
    ensures
        distinct_indices(s.remove(i)),
        entries_map(s.remove(i)) == entries_map(s).remove(s[i].0 as nat),
    decreases s.len(),
{
    let r = s.remove(i);
    assert(distinct_indices(r)) by {
        assert forall|a: int, b: int| 0 <= a < b < r.len() implies r[a].0 != r[b].0 by {
            let a0 = if a < i {
                a
            } else {
                a + 1
            };
            let b0 = if b < i {
                b
            } else {
                b + 1
            };
            assert(r[a] == s[a0]);
            assert(r[b] == s[b0]);
            assert(s[a0].0 != s[b0].0);
        }
    }
    let t = s.drop_last();
    assert(distinct_indices(t)) by {
        assert forall|a: int, b: int| 0 <= a < b < t.len() implies t[a].0 != t[b].0 by {
            assert(s[a].0 != s[b].0);
        }
    }
    lemma_entries_dom(t);
    if i == s.len() - 1 {
        assert(r =~= t);
        if has_index(t, s[i].0 as nat) {
            let j = choose|j: int| 0 <= j < t.len() && t[j].0 == s[i].0 as nat;
            assert(s[j].0 != s[i].0);
        }
        assert(entries_map(r) =~= entries_map(s).remove(s[i].0 as nat));
    } else {
        lemma_entries_remove(t, i);
        assert(r.drop_last() =~= t.remove(i));
        assert(r.last() == s.last());
        assert(s[i].0 != s[s.len() - 1].0);
        assert(entries_map(r) =~= entries_map(s).remove(s[i].0 as nat));
    }
}

/// What a resequencer holds: the index of the item that is due next, and
/// the items that arrived ahead of it, by index.
pub struct SequenceView<T> {
    pub next: nat,
    pub pending: Map<nat, T>,
}

impl<T> SequenceView<T> {
    /// Whether an item with this index is taken in: it is not behind the
    /// one that is due, and none with its index is waiting.
    pub open spec fn takes(self, index: nat) -> bool {
        index >= self.next && !self.pending.dom().contains(index)
    }

    /// The items that wait once `item` has arrived with `index`.
    pub open spec fn held(self, index: nat, item: T) -> Map<nat, T> {
        if self.takes(index) {
            self.pending.insert(index, item)
        } else {
            self.pending
        }
    }
}

/// The part of `m` at or above `from`.
pub open spec fn from_index<T>(m: Map<nat, T>, from: nat) -> Map<nat, T> {
    Map::new(|k: nat| m.dom().contains(k) && k >= from, |k: nat| m[k])
}

/// `items` is the run of `m` that starts at `from`: the items of `m` at
/// `from`, `from + 1` and so on, up to the first index that `m` lacks.
pub open spec fn run_from<T>(items: Seq<T>, m: Map<nat, T>, from: nat) -> bool {
    &&& forall|k: nat|
        from <= k < from + items.len() ==> #[trigger] m.dom().contains(k) && items[k - from]
            == m[k]
    &&& !m.dom().contains((from + items.len()) as nat)
}

/// What the arrivals hold for each index: the item that arrived first.
pub open spec fn first_arrivals<T>(arrivals: Seq<(u64, T)>) -> Map<nat, T>
    decreases arrivals.len(),
{
    if arrivals.len() == 0 {
        Map::empty()
    } else {
        let before = first_arrivals(arrivals.drop_last());
        if before.dom().contains(arrivals.last().0 as nat) {
            before
        } else {
            before.insert(arrivals.last().0 as nat, arrivals.last().1)
        }
    }
}

/// A buffer that releases items in the order of their indices.
#[derive(Debug)]
pub struct Resequencer<T> {
    next: u128,
    pending: Vec<(u64, T)>,
}

impl<T> View for Resequencer<T> {
    type V = SequenceView<T>;

    closed spec fn view(&self) -> SequenceView<T> {
        SequenceView { next: self.next as nat, pending: entries_map(self.pending@) }
    }
}

/// The position of the entry with index `wanted`, if there is one.
fn find<T>(entries: &Vec<(u64, T)>, wanted: u128) -> (at: Option<usize>)
    ensures
        match at {
            Some(i) => i < entries@.len() && entries@[i as int].0 == wanted,
            None => forall|j: int| 0 <= j < entries@.len() ==> entries@[j].0 != wanted,
        },
{
    let mut i: usize = 0;
    while i < entries.len()
        invariant
            i <= entries@.len(),
            forall|j: int| 0 <= j < i ==> entries@[j].0 != wanted,
        decreases entries@.len() - i,
    {
        if entries[i].0 as u128 == wanted {
            return Some(i);
        }
        i += 1;
    }
    None
}

impl<T> Resequencer<T> {
    #[verifier::type_invariant]
    spec fn well_formed(self) -> bool {
        &&& self.next <= 0x1_0000_0000_0000_0000
        &&& distinct_indices(self.pending@)
        &&& forall|i: int| 0 <= i < self.pending@.len() ==> self.pending@[i].0 > self.next
    }

    /// A buffer that waits for the item with index 0.
    pub fn new() -> (r: Resequencer<T>)
        ensures
            r@.next == 0,
            r@.pending == Map::<nat, T>::empty(),
    {
        Resequencer { next: 0, pending: Vec::new() }
    }

    /// The index of the item that is due next, or `None` once the items of
    /// all indices have been released.
    pub fn next_index(&self) -> (index: Option<u64>)
        ensures
            match index {
                Some(i) => i == self@.next,
                None => self@.next > u64::MAX,
            },
    {
        if self.next <= u64::MAX as u128 {
            Some(self.next as u64)
        } else {
            None
        }
    }

    /// The number of items that wait for an earlier one.
    pub fn waiting(&self) -> (n: usize)
        ensures
            self@.pending.dom().finite(),
            n == self@.pending.dom().len(),
    {
        proof {
            use_type_invariant(self);
            lemma_entries_len(self.pending@);
        }
        self.pending.len()
    }

    /// Takes in the item that arrived with `index` and releases what is
    /// due.
    ///
    /// An item behind the one that is due, or with the index of one that
    /// waits, is dropped. Otherwise the item joins those that wait. What
    /// is released is the run of waiting items from the due index on, in
    /// index order, up to the first gap; the due index moves past them and
    /// the other items go on waiting.
    pub fn accept(&mut self, index: u64, item: T) -> (released: Vec<T>)
        ensures
            run_from(released@, old(self)@.held(index as nat, item), old(self)@.next),
            final(self)@.next == old(self)@.next + released@.len(),
            final(self)@.pending == from_index(
                old(self)@.held(index as nat, item),
                final(self)@.next,
            ),
    {
        proof {
            use_type_invariant(&*self);
            lemma_entries_dom(self.pending@);
            lemma_entries_bound(self.pending@, self.next as nat + 1);
        }
        let ghost before = self@;
        let ghost held = before.held(index as nat, item);
        let ghost waiting = self.pending@;
        let mut released: Vec<T> = Vec::new();
        let behind = (index as u128) < self.next;
        let known = match find(&self.pending, index as u128) {
            Some(_) => true,
            None => false,
        };
        if behind || known {
            proof {
                if known {
                    assert(has_index(waiting, index as nat));
                }
                assert(!before.takes(index as nat));
                assert(held == entries_map(waiting));
                assert(held =~= from_index(held, before.next));
            }
            return released;
        }
        let mut pending: Vec<(u64, T)> = Vec::new();
        core::mem::swap(&mut self.pending, &mut pending);
        pending.push((index, item));
        let mut next: u128 = self.next;
        proof {
            if has_index(waiting, index as nat) {
                let i = choose|i: int| 0 <= i < waiting.len() && waiting[i].0 == index as nat;
                assert(waiting[i].0 != index as u128);
            }
            assert(before.takes(index as nat));
            assert(pending@.drop_last() =~= waiting);
            assert(pending@.last() == (index, item));
            assert(entries_map(pending@) == held);
            assert(distinct_indices(pending@)) by {
                assert forall|a: int, b: int| 0 <= a < b < pending@.len() implies pending@[a].0
                    != pending@[b].0 by {
                    if b < waiting.len() {
                        assert(waiting[a].0 != waiting[b].0);
                    } else {
                        assert(pending@[a] == waiting[a]);
                        assert(waiting[a].0 != index as u128);
                    }
                }
            }
            assert forall|i: int| 0 <= i < pending@.len() implies pending@[i].0 >= next by {
                if i < waiting.len() {
                    assert(pending@[i] == waiting[i]);
                }
            }
            lemma_entries_bound(pending@, next as nat);
            assert(entries_map(pending@) =~= from_index(held, next as nat));
        }
        loop
            invariant
                self.next == before.next,
                self.pending@.len() == 0,
                before.next <= next <= 0x1_0000_0000_0000_0000,
                next == before.next + released@.len(),
                distinct_indices(pending@),
                forall|i: int| 0 <= i < pending@.len() ==> pending@[i].0 >= next,
                entries_map(pending@) == from_index(held, next as nat),
                forall|k: nat|
                    before.next <= k < next ==> #[trigger] held.dom().contains(k)
                        && released@[k - before.next] == held[k],
            ensures
                self.next == before.next,
                self.pending@.len() == 0,
                next <= 0x1_0000_0000_0000_0000,
                next == before.next + released@.len(),
                distinct_indices(pending@),
                forall|i: int| 0 <= i < pending@.len() ==> pending@[i].0 > next,
                entries_map(pending@) == from_index(held, next as nat),
                run_from(released@, held, before.next),
            decreases pending@.len(),
        {
            let at = find(&pending, next);
            proof {
                lemma_entries_dom(pending@);
            }
            match at {
                Some(i) => {
                    let ghost longer = pending@;
                    let ghost earlier = released@;
                    proof {
                        lemma_entries_index(longer, i as int);
                        lemma_entries_remove(longer, i as int);
                        assert(held.dom().contains(next as nat));
                        assert(held[next as nat] == longer[i as int].1);
                    }
                    let entry = pending.remove(i);
                    released.push(entry.1);
                    proof {
                        let shorter = pending@;
                        assert(shorter == longer.remove(i as int));
                        assert forall|j: int| 0 <= j < shorter.len() implies shorter[j].0 >= next
                            + 1 by {
                            let j0 = if j < i {
                                j
                            } else {
                                j + 1
                            };
                            assert(shorter[j] == longer[j0]);
                            assert(longer[j0].0 != longer[i as int].0);
                        }
                        assert(entries_map(shorter) =~= from_index(held, (next + 1) as nat));
                        assert(released@ == earlier.push(entry.1));
                        assert forall|k: nat| before.next <= k < next + 1 implies #[trigger] held.dom().contains(
                            k,
                        ) && released@[k - before.next] == held[k] by {
                            if k < next {
                                assert(released@[k - before.next] == earlier[k - before.next]);
                            } else {
                                assert(released@[k - before.next] == entry.1);
                            }
                        }
                    }
                    next = next + 1;
                },
                None => {
                    proof {
                        assert(!has_index(pending@, next as nat));
                        assert(!entries_map(pending@).dom().contains(next as nat));
                        assert(!held.dom().contains(next as nat));
                        assert forall|k: nat|
                            before.next <= k < before.next
                                + released@.len() implies #[trigger] held.dom().contains(k)
                            && released@[k - before.next] == held[k] by {
                            assert(k < next);
                        }
                        assert(!held.dom().contains((before.next + released@.len()) as nat));
                    }
                    break ;
                },
            }
        }
        self.next = next;
        core::mem::swap(&mut self.pending, &mut pending);
        released
    }
}

/// Where every entry of `s` has an index of `low` or more, so has the map.
pub proof fn lemma_entries_bound<T>(s: Seq<(u64, T)>, low: nat)
    requires
        forall|i: int| 0 <= i < s.len() ==> s[i].0 >= low,
    ensures
        forall|k: nat| entries_map(s).dom().contains(k) ==> k >= low,
{
    lemma_entries_dom(s);
    assert forall|k: nat| entries_map(s).dom().contains(k) implies k >= low by {
        assert(has_index(s, k));
        let i = choose|i: int| 0 <= i < s.len() && s[i].0 == k;
        assert(s[i].0 >= low);
    }
}

/// With distinct indices, the map has as many indices as `s` has entries.
pub proof fn lemma_entries_len<T>(s: Seq<(u64, T)>)
    requires
        distinct_indices(s),
    ensures
        entries_map(s).dom().finite(),
        entries_map(s).dom().len() == s.len(),
    decreases s.len(),
{
    if s.len() > 0 {
        let t = s.drop_last();
        assert(distinct_indices(t)) by {
            assert forall|a: int, b: int| 0 <= a < b < t.len() implies t[a].0 != t[b].0 by {
                assert(s[a].0 != s[b].0);
            }
        }
        lemma_entries_len(t);
        lemma_entries_dom(t);
        if has_index(t, s.last().0 as nat) {
            let i = choose|i: int| 0 <= i < t.len() && t[i].0 == s.last().0 as nat;
            assert(s[i].0 != s[s.len() - 1].0);
        }
        assert(entries_map(s).dom() =~= entries_map(t).dom().insert(s.last().0 as nat));
    }
}

/// What is known of each index once `item` has arrived with `index`: the
/// first arrival stays.
pub open spec fn learned<T>(known: Map<nat, T>, index: nat, item: T) -> Map<nat, T> {
    if known.dom().contains(index) {
        known
    } else {
        known.insert(index, item)
    }
}

/// One arrival keeps a resequencer in step with what has arrived.
///
/// Say that all that was released so far, `so_far`, is the run from index
/// 0 of the first arrivals `known`, and that the rest of them waits. After
/// one more arrival, taken in as `accept` does, the same holds of what was
/// released up to then and of the first arrivals with that one added.
pub proof fn lemma_accept_keeps_order<T>(
    known: Map<nat, T>,
    so_far: Seq<T>,
    before: SequenceView<T>,
    index: nat,
    item: T,
    released: Seq<T>,
    after: SequenceView<T>,
)
    requires
        run_from(so_far, known, 0),
        before.next == so_far.len(),
        before.pending == from_index(known, before.next),
        run_from(released, before.held(index, item), before.next),
        after.next == before.next + released.len(),
        after.pending == from_index(before.held(index, item), after.next),
    ensures
        run_from(so_far + released, learned(known, index, item), 0),
        after.next == (so_far + released).len(),
        after.pending == from_index(learned(known, index, item), after.next),
{
    let held = before.held(index, item);
    let now = learned(known, index, item);
    let all = so_far + released;
    if index < before.next {
        assert(known.dom().contains(index));
    }
    assert(before.takes(index) <==> !known.dom().contains(index));
    assert forall|k: nat| k >= before.next implies (held.dom().contains(k) <==> now.dom().contains(
        k,
    )) && (held.dom().contains(k) ==> held[k] == now[k]) by {}
    assert forall|k: nat| 0 <= k < 0 + all.len() implies #[trigger] now.dom().contains(k) && all[k
        - 0] == now[k] by {
        if k < so_far.len() {
            assert(known.dom().contains(k));
            assert(all[k - 0] == so_far[k - 0]);
        } else {
            assert(held.dom().contains(k));
            assert(all[k - 0] == released[k - before.next]);
        }
    }
    assert(!held.dom().contains((before.next + released.len()) as nat));
    assert(!now.dom().contains((0 + all.len()) as nat));
    assert(after.pending =~= from_index(now, after.next));
}

/// Where no index arrives twice, the first arrivals are all arrivals.
pub proof fn lemma_first_arrivals_distinct<T>(s: Seq<(u64, T)>)
    requires
        distinct_indices(s),
    ensures
        first_arrivals(s) == entries_map(s),
    decreases s.len(),
{
    if s.len() > 0 {
        let t = s.drop_last();
        assert(distinct_indices(t)) by {
            assert forall|a: int, b: int| 0 <= a < b < t.len() implies t[a].0 != t[b].0 by {
                assert(s[a].0 != s[b].0);
            }
        }
        lemma_first_arrivals_distinct(t);
        lemma_entries_dom(t);
        if has_index(t, s.last().0 as nat) {
            let i = choose|i: int| 0 <= i < t.len() && t[i].0 == s.last().0 as nat;
            assert(s[i].0 != s[s.len() - 1].0);
        }
    }
}

/// Where no index arrives twice, the order of arrival plays no part: two
/// sequences of arrivals that hold the same entries, in whatever order,
/// know the same item for each index, and so release the same items in
/// the same order.
pub proof fn lemma_arrival_order_plays_no_part<T>(a: Seq<(u64, T)>, b: Seq<(u64, T)>)
    requires
        distinct_indices(a),
        distinct_indices(b),
        forall|i: int| 0 <= i < a.len() ==> b.contains(#[trigger] a[i]),
        forall|j: int| 0 <= j < b.len() ==> a.contains(#[trigger] b[j]),
    ensures
        first_arrivals(a) == first_arrivals(b),
{
    lemma_first_arrivals_distinct(a);
    lemma_first_arrivals_distinct(b);
    lemma_entries_dom(a);
    lemma_entries_dom(b);
    let ma = entries_map(a);
    let mb = entries_map(b);
    assert forall|k: nat| #[trigger] ma.dom().contains(k) implies mb.dom().contains(k) && ma[k]
        == mb[k] by {
        assert(has_index(a, k));
        let i = choose|i: int| 0 <= i < a.len() && a[i].0 == k;
        assert(b.contains(a[i]));
        let j = choose|j: int| 0 <= j < b.len() && b[j] == a[i];
        lemma_entries_index(a, i);
        lemma_entries_index(b, j);
        assert(has_index(b, k));
    }
    assert forall|k: nat| #[trigger] mb.dom().contains(k) implies ma.dom().contains(k) by {
        assert(has_index(b, k));
        let j = choose|j: int| 0 <= j < b.len() && b[j].0 == k;
        assert(a.contains(b[j]));
        let i = choose|i: int| 0 <= i < a.len() && a[i] == b[j];
        assert(has_index(a, k));
    }
    assert(ma.dom() =~= mb.dom());
    assert(ma =~= mb);
}

/// The same entries, last first.
fn reversed<T>(entries: Vec<T>) -> (out: Vec<T>)
    ensures
        out@.len() == entries@.len(),
        forall|j: int| 0 <= j < out@.len() ==> out@[j] == entries@[entries@.len() - 1 - j],
{
    let ghost all = entries@;
    let mut rest = entries;
    let mut out: Vec<T> = Vec::new();
    while rest.len() > 0
        invariant
            all == entries@,
            rest@ == all.take(rest@.len() as int),
            out@.len() + rest@.len() == all.len(),
            forall|j: int| 0 <= j < out@.len() ==> out@[j] == all[all.len() - 1 - j],
        decreases rest@.len(),
    {
        let last = rest.pop().unwrap();
        out.push(last);
    }
    out
}

/// Puts a batch of arrivals into generation order.
///
/// The items come back in the order of their indices, from index 0 up to
/// the first index that did not arrive; of several arrivals with the same
/// index the first counts. Items beyond the first gap stay in the buffer
/// that is handed back, where later arrivals can complete them.
pub fn resequence<T>(arrivals: Vec<(u64, T)>) -> (out: (Vec<T>, Resequencer<T>))
    ensures
        run_from(out.0@, first_arrivals(arrivals@), 0),
        out.1@.next == out.0@.len(),
        out.1@.pending == from_index(first_arrivals(arrivals@), out.1@.next),
{
    let ghost all = arrivals@;
    let mut rest = reversed(arrivals);
    let mut buffer: Resequencer<T> = Resequencer::new();
    let mut ordered: Vec<T> = Vec::new();
    let ghost mut done: Seq<(u64, T)> = Seq::empty();
    assert(buffer@.pending =~= from_index(first_arrivals(done), 0));
    while rest.len() > 0
        invariant
            all == arrivals@,
            rest@.len() + done.len() == all.len(),
            done == all.take(done.len() as int),
            forall|j: int| 0 <= j < rest@.len() ==> rest@[j] == all[all.len() - 1 - j],
            run_from(ordered@, first_arrivals(done), 0),
            buffer@.next == ordered@.len(),
            buffer@.pending == from_index(first_arrivals(done), buffer@.next),
        decreases rest@.len(),
    {
        let ghost known = first_arrivals(done);
        let ghost before = buffer@;
        let ghost so_far = ordered@;
        let entry = rest.pop().unwrap();
        let ghost grown = done.push(entry);
        let mut released = buffer.accept(entry.0, entry.1);
        proof {
            assert(entry == all[done.len() as int]);
            assert(grown.drop_last() =~= done);
            assert(grown.last() == entry);
            assert(grown =~= all.take(grown.len() as int));
            assert(first_arrivals(grown) == learned(known, entry.0 as nat, entry.1));
            lemma_accept_keeps_order(
                known,
                so_far,
                before,
                entry.0 as nat,
                entry.1,
                released@,
                buffer@,
            );
            done = grown;
        }
        ordered.append(&mut released);
    }
    assert(done =~= all);
    (ordered, buffer)
}

} // verus!
