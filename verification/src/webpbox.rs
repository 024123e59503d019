//! An owned, contiguous buffer handed out by the decoder.
//!
//! `WebpBox` owns the storage that backs a decoded plane.  Callers read it
//! through `len`/`get`/`as_vec`, and `into_raw` relinquishes the underlying
//! storage to the caller.

use vstd::prelude::*;

verus! {

/// An exclusively owned buffer of decoder output.
pub struct WebpBox<T> {
    data: Vec<T>,
}

impl<T> View for WebpBox<T> {
    type V = Seq<T>;

    closed spec fn view(&self) -> Seq<T> {
        self.data@
    }
}

impl<T> WebpBox<T> {
    /// Wraps a buffer, taking ownership of its storage.
    pub fn from_raw(raw: Vec<T>) -> (b: Self)
        ensures
            b@ == raw@,
    {
        WebpBox { data: raw }
    }

    /// Relinquishes ownership of the underlying storage.
    pub fn into_raw(b: Self) -> (r: Vec<T>)
        ensures
            r@ == b@,
    {
        b.data
    }

    /// The number of elements held.
    pub fn len(&self) -> (n: usize)
        ensures
            n == self@.len(),
    {
        self.data.len()
    }

    /// Borrows the underlying storage.
    pub fn as_vec(&self) -> (v: &Vec<T>)
        ensures
            v@ == self@,
    {
        &self.data
    }

    /// Overwrites the element at `i`.
    pub fn set(&mut self, i: usize, v: T)
        requires
            i < old(self)@.len(),
        ensures
            final(self)@ == old(self)@.update(i as int, v),
    {
        self.data.set(i, v);
    }
}

impl<T: Copy> WebpBox<T> {
    /// Reads the element at `i`.
    pub fn get(&self, i: usize) -> (v: T)
        requires
            i < self@.len(),
        ensures
            v == self@[i as int],
    {
        self.data[i]
    }
}

} // verus!
