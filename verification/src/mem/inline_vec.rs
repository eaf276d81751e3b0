use vstd::prelude::*;

verus! {

/// A vector that never holds more than `CAPACITY` items.
pub struct InlineVec<const CAPACITY: usize, T> {
    pub items: Vec<T>,
}

impl<const CAPACITY: usize, T> View for InlineVec<CAPACITY, T> {
    type V = Seq<T>;

    open spec fn view(&self) -> Seq<T> {
        self.items@
    }
}

impl<const CAPACITY: usize, T> Default for InlineVec<CAPACITY, T> {
    fn default() -> (v: Self)
        ensures
            v.wf(),
            v@ == Seq::<T>::empty(),
    {
        InlineVec { items: Vec::new() }
    }
}

impl<const CAPACITY: usize, T> InlineVec<CAPACITY, T> {
    /// The bound is kept.
    pub open spec fn wf(&self) -> bool {
        self.items@.len() <= CAPACITY
    }

    pub fn new() -> (v: Self)
        ensures
            v.wf(),
            v@ == Seq::<T>::empty(),
    {
        InlineVec { items: Vec::new() }
    }

    pub fn clear(&mut self)
        ensures
            final(self)@ == Seq::<T>::empty(),
            final(self).wf(),
    {
        self.items.clear();
    }

    pub fn len(&self) -> (n: usize)
        ensures
            n == self@.len(),
    {
        self.items.len()
    }

    pub fn is_empty(&self) -> (b: bool)
        ensures
            b == (self@.len() == 0),
    {
        self.items.len() == 0
    }

    pub fn is_full(&self) -> (b: bool)
        ensures
            b == (self@.len() >= CAPACITY),
    {
        self.items.len() >= CAPACITY
    }

    pub fn last(&self) -> (item: Option<&T>)
        ensures
            self@.len() == 0 ==> item.is_none(),
            self@.len() > 0 ==> item == Some(&self@.last()),
    {
        let n = self.items.len();
        if n == 0 {
            None
        } else {
            Some(&self.items[n - 1])
        }
    }

    pub fn get(&self, index: usize) -> (item: &T)
        requires
            index < self@.len(),
        ensures
            *item == self@[index as int],
    {
        &self.items[index]
    }

    pub fn set(&mut self, index: usize, item: T)
        requires
            index < old(self)@.len(),
        ensures
            final(self)@ == old(self)@.update(index as int, item),
    {
        self.items[index] = item;
    }

    pub fn pop(&mut self) -> (item: Option<T>)
        ensures
            old(self)@.len() == 0 ==> item.is_none() && final(self)@ == old(self)@,
            old(self)@.len() > 0 ==> item == Some(old(self)@.last()) && final(self)@ == old(self)@.drop_last(),
    {
        self.items.pop()
    }

    /// Drops the last `n` items, or all of them if there are fewer.
    pub fn pop_n(&mut self, n: usize)
        ensures
            final(self)@ == old(self)@.take(
                if n <= old(self)@.len() {
                    old(self)@.len() - n
                } else {
                    0
                },
            ),
    {
        let len = self.items.len();
        let keep: usize = if n <= len {
            len - n
        } else {
            0
        };
        self.items.truncate(keep);
    }

    /// Appends `value`. There must be room.
    pub fn push(&mut self, value: T)
        requires
            old(self)@.len() < CAPACITY,
        ensures
            final(self)@ == old(self)@.push(value),
            final(self).wf(),
    {
        self.items.push(value);
    }
}

} // verus!
