//! The append-only output container the codec writes into.
use vstd::prelude::*;

use crate::error::ErrorKind;

verus! {

/// A fixed- or growable-capacity sequence of values.
///
/// `items` is what the container holds and `limit` the largest number of
/// items it can hold; no operation changes the limit.
pub trait VectorTrait<T: Copy>: Sized {
    spec fn items(&self) -> Seq<T>;

    spec fn limit(&self) -> nat;

    /// Appends one value; fails, leaving the container unchanged, when it is full.
    fn add(&mut self, value: T) -> (r: Result<(), ErrorKind>)
        ensures
            final(self).limit() == old(self).limit(),
            r is Ok <==> old(self).items().len() < old(self).limit(),
            r is Ok ==> final(self).items() == old(self).items().push(value),
            r is Err ==> final(self).items() == old(self).items() && r == Err::<(), ErrorKind>(
                ErrorKind::OOB,
            ),
    ;

    /// Appends all of `values`, or nothing when they do not fit.
    fn add_bulk(&mut self, values: &[T]) -> (r: Result<(), ErrorKind>)
        ensures
            final(self).limit() == old(self).limit(),
            r is Ok <==> old(self).items().len() + values@.len() <= old(self).limit(),
            r is Ok ==> final(self).items() == old(self).items() + values@,
            r is Err ==> final(self).items() == old(self).items() && r == Err::<(), ErrorKind>(
                ErrorKind::OOB,
            ),
    ;

    /// The number of items held.
    fn get_len(&self) -> (r: usize)
        ensures
            r == self.items().len(),
    ;

    /// The items held, as a slice.
    fn get_slice(&self) -> (r: &[T])
        ensures
            r@ == self.items(),
    ;

    /// Replaces the item at `index`.
    fn replace(&mut self, index: usize, value: T)
        requires
            index < old(self).items().len(),
        ensures
            final(self).limit() == old(self).limit(),
            final(self).items() == old(self).items().update(index as int, value),
    ;

    /// Removes every item.
    fn clear_all(&mut self)
        ensures
            final(self).limit() == old(self).limit(),
            final(self).items() == Seq::<T>::empty(),
    ;
}

impl<T: Copy> VectorTrait<T> for Vec<T> {
    open spec fn items(&self) -> Seq<T> {
        self@
    }

    open spec fn limit(&self) -> nat {
        usize::MAX as nat
    }

    fn add(&mut self, value: T) -> (r: Result<(), ErrorKind>) {
        if self.len() < usize::MAX {
            self.push(value);
            Ok(())
        } else {
            Err(ErrorKind::OOB)
        }
    }

    fn add_bulk(&mut self, values: &[T]) -> (r: Result<(), ErrorKind>) {
        if values.len() > usize::MAX - self.len() {
            return Err(ErrorKind::OOB);
        }
        let ghost start = self@;
        let mut i: usize = 0;
        while i < values.len()
            invariant
                i <= values@.len(),
                start.len() + values@.len() <= usize::MAX,
                self@ == start + values@.take(i as int),
            decreases values@.len() - i,
        {
            assert(values@.take(i + 1) =~= values@.take(i as int).push(values@[i as int]));
            self.push(values[i]);
            i = i + 1;
        }
        assert(values@.take(i as int) =~= values@);
        Ok(())
    }

    fn get_len(&self) -> (r: usize) {
        self.len()
    }

    fn get_slice(&self) -> (r: &[T]) {
        self.as_slice()
    }

    fn replace(&mut self, index: usize, value: T) {
        self.set(index, value);
    }

    fn clear_all(&mut self) {
        self.clear();
    }
}

/// A container that holds at most a fixed number of items.
pub struct BoundedVec<T> {
    data: Vec<T>,
    capacity: usize,
}

impl<T: Copy> BoundedVec<T> {
    /// An empty container that holds at most `capacity` items.
    pub fn new(capacity: usize) -> (r: Self)
        ensures
            r.items() == Seq::<T>::empty(),
            r.limit() == capacity,
    {
        BoundedVec { data: Vec::new(), capacity }
    }

    /// The largest number of items the container holds.
    pub fn capacity(&self) -> (r: usize)
        ensures
            r == self.limit(),
    {
        self.capacity
    }
}

impl<T: Copy> VectorTrait<T> for BoundedVec<T> {
    closed spec fn items(&self) -> Seq<T> {
        self.data@
    }

    closed spec fn limit(&self) -> nat {
        self.capacity as nat
    }

    fn add(&mut self, value: T) -> (r: Result<(), ErrorKind>) {
        if self.data.len() < self.capacity {
            self.data.push(value);
            Ok(())
        } else {
            Err(ErrorKind::OOB)
        }
    }

    fn add_bulk(&mut self, values: &[T]) -> (r: Result<(), ErrorKind>) {
        if self.data.len() > self.capacity || values.len() > self.capacity - self.data.len() {
            return Err(ErrorKind::OOB);
        }
        self.data.add_bulk(values)
    }

    fn get_len(&self) -> (r: usize) {
        self.data.len()
    }

    fn get_slice(&self) -> (r: &[T]) {
        self.data.as_slice()
    }

    fn replace(&mut self, index: usize, value: T) {
        self.data.set(index, value);
    }

    fn clear_all(&mut self) {
        self.data.clear();
    }
}

} // verus!
