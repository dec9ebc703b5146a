use vstd::prelude::*;

verus! {

/// The public key of an account: its 32 bytes as two big-endian 16-byte halves.
#[derive(Clone, Copy, Debug, PartialEq, Eq, Structural)]
pub struct AccountKey {
    pub high: u128,
    pub low: u128,
}

impl AccountKey {
    /// The key with the given halves.
    pub fn new(high: u128, low: u128) -> (r: AccountKey)
        ensures
            r.high == high,
            r.low == low,
    {
        AccountKey { high, low }
    }
}

/// A first-in first-out queue that holds at most `capacity` items.
pub struct BoundedQueue<T> {
    items: Vec<T>,
    capacity: usize,
}

impl<T: Copy> BoundedQueue<T> {
    /// The items, front first.
    pub closed spec fn items(&self) -> Seq<T> {
        self.items@
    }

    /// The most items the queue holds.
    pub closed spec fn cap(&self) -> nat {
        self.capacity as nat
    }

    /// No more items than the capacity.
    pub open spec fn wf(&self) -> bool {
        self.items().len() <= self.cap()
    }

    /// An empty queue of the given capacity.
    pub fn new(capacity: usize) -> (r: Self)
        ensures
            r.wf(),
            r.items() == Seq::<T>::empty(),
            r.cap() == capacity,
    {
        BoundedQueue { items: Vec::new(), capacity }
    }

    /// The number of items.
    pub fn len(&self) -> (r: usize)
        ensures
            r == self.items().len(),
    {
        self.items.len()
    }

    /// Whether the queue holds no item.
    pub fn is_empty(&self) -> (r: bool)
        ensures
            r == (self.items().len() == 0),
    {
        self.items.len() == 0
    }

    /// The most items the queue holds.
    pub fn capacity(&self) -> (r: usize)
        ensures
            r == self.cap(),
    {
        self.capacity
    }

    /// Appends `item` at the back; refused, leaving the queue as it was, when full.
    pub fn enqueue(&mut self, item: T) -> (r: bool)
        requires
            old(self).wf(),
        ensures
            final(self).wf(),
            final(self).cap() == old(self).cap(),
            r == (old(self).items().len() < old(self).cap()),
            r ==> final(self).items() == old(self).items().push(item),
            !r ==> final(self).items() == old(self).items(),
    {
        if self.items.len() >= self.capacity {
            return false;
        }
        self.items.push(item);
        true
    }

    /// Takes the front item, if any.
    pub fn dequeue(&mut self) -> (r: Option<T>)
        requires
            old(self).wf(),
        ensures
            final(self).wf(),
            final(self).cap() == old(self).cap(),
            old(self).items().len() == 0 ==> r is None && final(self).items() == old(self).items(),
            old(self).items().len() > 0 ==> r == Some(old(self).items()[0]) && final(self).items()
                == old(self).items().drop_first(),
    {
        if self.items.len() == 0 {
            return None;
        }
        let front = self.items.remove(0);
        assert(self.items@ =~= old(self).items@.drop_first());
        Some(front)
    }

    /// The item at position `index` from the front, if any.
    pub fn peek(&self, index: usize) -> (r: Option<T>)
        ensures
            index < self.items().len() ==> r == Some(self.items()[index as int]),
            index >= self.items().len() ==> r is None,
    {
        if index < self.items.len() {
            Some(self.items[index])
        } else {
            None
        }
    }

    /// Takes out the item at position `index` from the front.
    pub fn remove_at(&mut self, index: usize) -> (r: T)
        requires
            old(self).wf(),
            index < old(self).items().len(),
        ensures
            final(self).wf(),
            final(self).cap() == old(self).cap(),
            r == old(self).items()[index as int],
            final(self).items() == old(self).items().remove(index as int),
    {
        self.items.remove(index)
    }

    /// Empties the queue.
    pub fn clear(&mut self)
        requires
            old(self).wf(),
        ensures
            final(self).wf(),
            final(self).cap() == old(self).cap(),
            final(self).items() == Seq::<T>::empty(),
    {
        self.items.clear();
    }

    /// The items, front first.
    pub fn to_vec(&self) -> (r: Vec<T>)
        ensures
            r@ == self.items(),
    {
        let mut r: Vec<T> = Vec::new();
        let mut i: usize = 0;
        while i < self.items.len()
            invariant
                0 <= i <= self.items@.len(),
                r@ == self.items@.take(i as int),
            decreases self.items@.len() - i,
        {
            r.push(self.items[i]);
            i = i + 1;
            assert(r@ =~= self.items@.take(i as int));
        }
        assert(self.items@.take(i as int) =~= self.items@);
        r
    }

    /// A queue with the same items and capacity.
    pub fn copy(&self) -> (r: Self)
        ensures
            r.items() == self.items(),
            r.cap() == self.cap(),
    {
        BoundedQueue { items: self.to_vec(), capacity: self.capacity }
    }
}

} // verus!
