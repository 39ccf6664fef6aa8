use std::marker::PhantomData;
use vstd::prelude::*;

verus! {

/// An index into an `Arena<T>`.
#[derive(Debug)]
pub struct Handle<T> {
    pub index: usize,
    pub marker: PhantomData<T>,
}

impl<T> Clone for Handle<T> {
    fn clone(&self) -> (r: Handle<T>)
        ensures
            r.index == self.index,
    {
        Handle::new(self.index)
    }
}

impl<T> Handle<T> {
    /// The handle of the element at `index`.
    pub fn new(index: usize) -> (r: Handle<T>)
        ensures
            r.index == index,
    {
        Handle { index, marker: PhantomData }
    }
}

/// A growable store of values addressed by handles: a tree can refer to its
/// nodes by handle instead of by reference.
#[derive(Debug)]
pub struct Arena<T> {
    data: Vec<T>,
}

impl<T> View for Arena<T> {
    type V = Seq<T>;

    closed spec fn view(&self) -> Seq<T> {
        self.data@
    }
}

impl<T> Arena<T> {
    /// An empty arena.
    pub fn new() -> (r: Arena<T>)
        ensures
            r@ == Seq::<T>::empty(),
    {
        Arena { data: Vec::new() }
    }

    /// Stores `value` and returns its handle.
    pub fn append(&mut self, value: T) -> (r: Handle<T>)
        requires
            old(self)@.len() < usize::MAX,
        ensures
            final(self)@ == old(self)@.push(value),
            r.index == old(self)@.len(),
    {
        self.data.push(value);
        Handle::new(self.data.len() - 1)
    }

    /// The value that `handle` refers to.
    pub fn get(&self, handle: &Handle<T>) -> (r: &T)
        requires
            handle.index < self@.len(),
        ensures
            *r == self@[handle.index as int],
    {
        &self.data[handle.index]
    }

    /// The value that `handle` refers to, for changing it in place.
    pub fn get_mut(&mut self, handle: &Handle<T>) -> (r: &mut T)
        requires
            handle.index < old(self)@.len(),
        ensures
            *r == old(self)@[handle.index as int],
            final(self)@ == old(self)@.update(handle.index as int, *final(r)),
    {
        &mut self.data[handle.index]
    }

    /// Number of values stored.
    pub fn len(&self) -> (r: usize)
        ensures
            r == self@.len(),
    {
        self.data.len()
    }
}

} // verus!
