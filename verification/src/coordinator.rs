//! Restoring the order of the input files among outcomes that arrive in
//! the order in which the workers finish.

use crate::extract::FileOutcome;
use vstd::prelude::*;

verus! {

/// One slot for each file of a batch, in the order of the files. A slot is
/// empty until the outcome for its file is recorded.
pub struct Coordinator {
    slots: Vec<Option<FileOutcome>>,
}

/// The slots of a batch of `count` files of which none is done.
pub open spec fn empty_slots(count: nat) -> Seq<Option<FileOutcome>> {
    Seq::new(count, |i: int| None::<FileOutcome>)
}

/// The slots after the outcome for the file at `index` has come in. An
/// outcome for a file that is not in the batch, or that has an outcome
/// already, changes nothing.
pub open spec fn recorded(slots: Seq<Option<FileOutcome>>, index: int, outcome: FileOutcome) -> Seq<
    Option<FileOutcome>,
> {
    if 0 <= index < slots.len() && slots[index] is None {
        slots.update(index, Some(outcome))
    } else {
        slots
    }
}

/// The slots after the first `n` of `order` have come in, one after the
/// other: `order[k]` is the index of the file that finished as number `k`,
/// and `outcomes` holds each file's outcome under the file's own index.
pub open spec fn replayed(
    slots: Seq<Option<FileOutcome>>,
    outcomes: Seq<FileOutcome>,
    order: Seq<int>,
    n: int,
) -> Seq<Option<FileOutcome>>
    decreases n,
{
    if n <= 0 {
        slots
    } else {
        recorded(replayed(slots, outcomes, order, n - 1), order[n - 1], outcomes[order[n - 1]])
    }
}

/// Whether every slot is filled.
pub open spec fn all_filled(slots: Seq<Option<FileOutcome>>) -> bool {
    forall|i: int| 0 <= i < slots.len() ==> (#[trigger] slots[i]) is Some
}

/// The outcomes in the slots, in order, where every slot is filled.
pub open spec fn filled_with(slots: Seq<Option<FileOutcome>>, outcomes: Seq<FileOutcome>) -> bool {
    &&& outcomes.len() == slots.len()
    &&& forall|i: int|
        #![trigger slots[i]]
        #![trigger outcomes[i]]
        0 <= i < slots.len() ==> slots[i] == Some(outcomes[i])
}

/// Whether the file at `index` is among the first `n` to finish.
pub open spec fn finished_within(order: Seq<int>, n: int, index: int) -> bool {
    exists|k: int| 0 <= k < n && k < order.len() && #[trigger] order[k] == index
}

/// After the first `n` files have finished, the slot of each of them holds
/// its outcome, and the other slots are empty.
proof fn lemma_replayed(outcomes: Seq<FileOutcome>, order: Seq<int>, n: int)
    requires
        0 <= n <= order.len(),
    ensures
        replayed(empty_slots(outcomes.len()), outcomes, order, n).len() == outcomes.len(),
        forall|i: int|
            0 <= i < outcomes.len() ==> #[trigger] replayed(
                empty_slots(outcomes.len()),
                outcomes,
                order,
                n,
            )[i] == (if finished_within(order, n, i) {
                Some(outcomes[i])
            } else {
                None
            }),
    decreases n,
{
    let start = empty_slots(outcomes.len());
    if n > 0 {
        lemma_replayed(outcomes, order, n - 1);
        let before = replayed(start, outcomes, order, n - 1);
        let after = replayed(start, outcomes, order, n);
        let last = order[n - 1];
        assert forall|i: int| 0 <= i < outcomes.len() implies #[trigger] after[i] == (
        if finished_within(order, n, i) {
            Some(outcomes[i])
        } else {
            None
        }) by {
            if i == last {
                assert(order[n - 1] == i);
                assert(finished_within(order, n, i));
            } else if finished_within(order, n, i) {
                let k = choose|k: int| 0 <= k < n && k < order.len() && #[trigger] order[k] == i;
                assert(k < n - 1);
                assert(finished_within(order, n - 1, i));
            } else if finished_within(order, n - 1, i) {
                let k = choose|k: int|
                    0 <= k < n - 1 && k < order.len() && #[trigger] order[k] == i;
                assert(order[k] == i && k < n);
            }
        }
    }
}

/// The order of the files is restored whatever the order in which they
/// finish: once every file has finished, each slot holds the outcome of its
/// own file.
pub proof fn lemma_order_is_restored(outcomes: Seq<FileOutcome>, order: Seq<int>)
    requires
        forall|i: int| 0 <= i < outcomes.len() ==> finished_within(order, order.len() as int, i),
    ensures
        filled_with(
            replayed(empty_slots(outcomes.len()), outcomes, order, order.len() as int),
            outcomes,
        ),
{
    lemma_replayed(outcomes, order, order.len() as int);
}

/// Two orders in which the same files finish leave the same slots.
pub proof fn lemma_order_does_not_matter(
    outcomes: Seq<FileOutcome>,
    first: Seq<int>,
    second: Seq<int>,
)
    requires
        forall|i: int|
            0 <= i < outcomes.len() ==> (finished_within(first, first.len() as int, i)
                <==> finished_within(second, second.len() as int, i)),
    ensures
        replayed(empty_slots(outcomes.len()), outcomes, first, first.len() as int) == replayed(
            empty_slots(outcomes.len()),
            outcomes,
            second,
            second.len() as int,
        ),
{
    lemma_replayed(outcomes, first, first.len() as int);
    lemma_replayed(outcomes, second, second.len() as int);
    assert(replayed(empty_slots(outcomes.len()), outcomes, first, first.len() as int) =~= replayed(
        empty_slots(outcomes.len()),
        outcomes,
        second,
        second.len() as int,
    ));
}

impl Coordinator {
    /// The slots, in the order of the files.
    pub closed spec fn slots(&self) -> Seq<Option<FileOutcome>> {
        self.slots@
    }

    /// A coordinator for a batch of `count` files, none of them done.
    pub fn new(count: usize) -> (c: Coordinator)
        ensures
            c.slots() == empty_slots(count as nat),
    {
        let mut slots: Vec<Option<FileOutcome>> = Vec::new();
        let mut i: usize = 0;
        while i < count
            invariant
                0 <= i <= count,
                slots@ == empty_slots(i as nat),
            decreases count - i,
        {
            slots.push(None);
            i = i + 1;
        }
        Coordinator { slots }
    }

    /// The number of files in the batch.
    pub fn len(&self) -> (n: usize)
        ensures
            n == self.slots().len(),
    {
        self.slots.len()
    }

    /// Records the outcome for the file at `index`, whenever it comes in.
    /// Returns whether it was taken: an index outside the batch and a second
    /// outcome for the same file are refused and change nothing.
    pub fn record(&mut self, index: usize, outcome: FileOutcome) -> (taken: bool)
        ensures
            final(self).slots() == recorded(old(self).slots(), index as int, outcome),
            taken == (index < old(self).slots().len() && old(self).slots()[index as int] is None),
    {
        if index < self.slots.len() && self.slots[index].is_none() {
            self.slots.set(index, Some(outcome));
            true
        } else {
            false
        }
    }

    /// Whether the outcome of every file has been recorded.
    pub fn is_complete(&self) -> (done: bool)
        ensures
            done == all_filled(self.slots()),
    {
        let mut i: usize = 0;
        while i < self.slots.len()
            invariant
                0 <= i <= self.slots.len(),
                forall|j: int| 0 <= j < i ==> (#[trigger] self.slots@[j]) is Some,
            decreases self.slots.len() - i,
        {
            if self.slots[i].is_none() {
                return false;
            }
            i = i + 1;
        }
        true
    }

    /// The outcomes in the order of the files, once all are there; nothing
    /// while one is missing.
    pub fn finish(self) -> (r: Option<Vec<FileOutcome>>)
        ensures
            match r {
                Some(outcomes) => filled_with(self.slots(), outcomes@),
                None => !all_filled(self.slots()),
            },
    {
        if !self.is_complete() {
            return None;
        }
        let ghost all = self.slots@;
        let mut slots = self.slots;
        let mut backwards: Vec<FileOutcome> = Vec::new();
        while slots.len() > 0
            invariant
                slots@.len() + backwards@.len() == all.len(),
                slots@ == all.take(slots@.len() as int),
                all_filled(all),
                forall|j: int|
                    0 <= j < backwards@.len() ==> all[all.len() - 1 - j] == Some(
                        #[trigger] backwards@[j],
                    ),
            decreases slots@.len(),
        {
            let ghost at = slots@.len() - 1;
            let slot = slots.pop().unwrap();
            assert(slot == all[at]);
            backwards.push(slot.unwrap());
        }
        let mut outcomes: Vec<FileOutcome> = Vec::new();
        let ghost turned = backwards@;
        while backwards.len() > 0
            invariant
                turned.len() == all.len(),
                backwards@ == turned.take(backwards@.len() as int),
                backwards@.len() + outcomes@.len() == all.len(),
                forall|j: int|
                    0 <= j < turned.len() ==> all[all.len() - 1 - j] == Some(#[trigger] turned[j]),
                forall|i: int| 0 <= i < outcomes@.len() ==> all[i] == Some(#[trigger] outcomes@[i]),
            decreases backwards@.len(),
        {
            let ghost at = backwards@.len() - 1;
            let outcome = backwards.pop().unwrap();
            assert(outcome == turned[at]);
            outcomes.push(outcome);
        }
        Some(outcomes)
    }
}

} // verus!
