//! A first-in, first-out queue that is filled once and then only drained.

use vstd::prelude::*;
use std::collections::VecDeque;
use vstd::std_specs::iter::IteratorSpec;

verus! {

/// Queue of the items of one iterator, in the order the iterator gave them.
/// Nothing can be added after construction; every item leaves at most once.
pub struct NonPushableQueue<T: Sized + Send + Sync> {
    items: VecDeque<T>,
}

impl<T: Sized + Send + Sync> View for NonPushableQueue<T> {
    type V = Seq<T>;

    /// The items still in the queue, front first.
    closed spec fn view(&self) -> Seq<T> {
        self.items@
    }
}

/// What one pop gives from a queue that holds `items`, and what it leaves.
pub open spec fn popped<T>(items: Seq<T>) -> (Option<T>, Seq<T>) {
    if items.len() == 0 {
        (None, items)
    } else {
        (Some(items[0]), items.drop_first())
    }
}

/// The items that `pops` pops in a row give out from a queue that holds
/// `items`, in the order in which they come.
pub open spec fn delivered<T>(items: Seq<T>, pops: nat) -> Seq<T>
    decreases pops,
{
    if pops == 0 {
        Seq::empty()
    } else {
        match popped(items).0 {
            Some(item) => seq![item] + delivered(popped(items).1, (pops - 1) as nat),
            None => Seq::empty(),
        }
    }
}

/// What `pops` pops in a row leave of a queue that holds `items`.
pub open spec fn left_after<T>(items: Seq<T>, pops: nat) -> Seq<T>
    decreases pops,
{
    if pops == 0 {
        items
    } else {
        left_after(popped(items).1, (pops - 1) as nat)
    }
}

/// However often a queue is popped, every item leaves it at most once and in
/// the order of the queue: what was given out, followed by what is left, is
/// what the queue held. Once it was popped as often as it held items,
/// everything was given out exactly once and nothing is left.
pub proof fn every_item_leaves_once<T>(items: Seq<T>, pops: nat)
    ensures
        delivered(items, pops) + left_after(items, pops) == items,
        delivered(items, pops).to_multiset().add(left_after(items, pops).to_multiset())
            == items.to_multiset(),
        pops >= items.len() ==> delivered(items, pops) == items && left_after(items, pops).len()
            == 0,
        pops <= items.len() ==> delivered(items, pops) == items.take(pops as int),
    decreases pops,
{
    if pops > 0 {
        let rest = popped(items).1;
        let fewer = (pops - 1) as nat;
        every_item_leaves_once(rest, fewer);
        if items.len() > 0 {
            let head = seq![items[0]];
            assert(head + rest =~= items);
            assert((head + delivered(rest, fewer)) + left_after(rest, fewer) =~= head + (delivered(
                rest,
                fewer,
            ) + left_after(rest, fewer)));
            if pops <= items.len() {
                assert(head + rest.take(fewer as int) =~= items.take(pops as int));
            }
        }
    }
    assert(delivered(items, pops) + left_after(items, pops) =~= items);
    vstd::seq_lib::lemma_multiset_commutative(delivered(items, pops), left_after(items, pops));
}

impl<T: Sized + Send + Sync> NonPushableQueue<T> {
    /// Takes the front item out, or gives `None` and leaves the queue as it
    /// is when nothing is left.
    pub fn pop_front(&mut self) -> (item: Option<T>)
        ensures
            (item, final(self)@) == popped(old(self)@),
    {
        let item = self.items.pop_front();
        proof {
            if old(self)@.len() > 0 {
                assert(self.items@ =~= old(self)@.drop_first());
            }
        }
        item
    }

    /// Gives up all that is left in the queue.
    pub fn clear(&mut self)
        ensures
            final(self)@.len() == 0,
    {
        self.items.clear();
    }

    /// Whether nothing is left in the queue.
    pub fn is_empty(&self) -> (empty: bool)
        ensures
            empty == (self@.len() == 0),
    {
        self.items.len() == 0
    }

    /// Number of items still in the queue.
    pub fn len(&self) -> (n: usize)
        ensures
            n == self@.len(),
    {
        self.items.len()
    }

    /// Drains `iter` into a new queue.
    pub fn new_from_iterator<I: Iterator<Item = T>>(iter: I) -> (queue: Self)
        requires
            iter.obeys_prophetic_iter_laws(),
            iter.decrease() is Some,
        ensures
            queue@ == iter.remaining(),
    {
        let mut iter = iter;
        let mut items: VecDeque<T> = VecDeque::new();
        let ghost all = iter.remaining();
        loop
            invariant
                iter.obeys_prophetic_iter_laws(),
                iter.decrease() is Some,
                all == items@ + iter.remaining(),
            ensures
                items@ == all,
            decreases iter.decrease()->0,
        {
            match iter.next() {
                Some(item) => {
                    items.push_back(item);
                },
                None => {
                    assert(items@ + iter.remaining() =~= items@);
                    break ;
                },
            }
        }
        NonPushableQueue { items }
    }
}

} // verus!
