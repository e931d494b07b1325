//! Append-only arenas and the copyable handles that index into them.
//!
//! An arena owns nodes of one kind and hands out stable handles: nodes are
//! never freed or rewritten during an inference run, so a handle stays valid
//! for the arena's lifetime.

use vstd::prelude::*;

verus! {

/// A stable handle into an [`Arena`]: a small copyable index tagged with the
/// node kind it refers to.
#[derive(Debug)]
pub struct Idx<T> {
    value: usize,
    marker: core::marker::PhantomData<T>,
}

impl<T> Idx<T> {
    /// The mathematical value of the handle: its position in the arena.
    pub closed spec fn view(self) -> nat {
        self.value as nat
    }

    pub fn new(value: u32) -> (r: Self)
        ensures
            r@ == value as nat,
    {
        Idx { value: value as usize, marker: core::marker::PhantomData }
    }

    /// A handle at a given arena position.
    pub fn of(value: usize) -> (r: Self)
        ensures
            r@ == value as nat,
    {
        Idx { value, marker: core::marker::PhantomData }
    }

    /// The raw position, for use as a key in side tables.
    pub fn value(self) -> (r: usize)
        ensures
            r as nat == self@,
    {
        self.value
    }
}

impl<T> Clone for Idx<T> {
    fn clone(&self) -> (r: Self)
        ensures
            r == *self,
    {
        Idx { value: self.value, marker: core::marker::PhantomData }
    }
}

impl<T> Copy for Idx<T> {}

/// Copies a list of handles.
pub fn clone_idxs<T>(v: &Vec<Idx<T>>) -> (r: Vec<Idx<T>>)
    ensures
        r@ == v@,
{
    let mut r: Vec<Idx<T>> = Vec::new();
    let mut i: usize = 0;
    while i < v.len()
        invariant
            i <= v.len(),
            r@ == v@.subrange(0, i as int),
        decreases v.len() - i,
    {
        r.push(v[i]);
        i = i + 1;
    }
    assert(v@.subrange(0, v@.len() as int) == v@);
    r
}

/// An append-only container of nodes of one kind.  Allocation never
/// invalidates earlier handles; nodes are immutable once allocated.
pub struct Arena<T> {
    entries: Vec<T>,
}

impl<T> Arena<T> {
    /// The mathematical contents of the arena, oldest node first.
    pub closed spec fn view(&self) -> Seq<T> {
        self.entries@
    }

    pub fn new() -> (r: Self)
        ensures
            r@ == Seq::<T>::empty(),
    {
        Arena { entries: Vec::new() }
    }

    /// Appends a node and returns its handle.  Existing nodes are untouched.
    pub fn allocate(&mut self, v: T) -> (r: Idx<T>)
        ensures
            final(self)@ == old(self)@.push(v),
            r@ == old(self)@.len(),
    {
        let index = self.current_index();
        self.entries.push(v);
        Idx::of(index)
    }

    /// The index the next allocation will receive.
    pub fn current_index(&self) -> (r: usize)
        ensures
            r == self@.len(),
    {
        self.entries.len()
    }

    /// Dereferences a handle to an immutable view of its node.
    pub fn get(&self, index: Idx<T>) -> (r: &T)
        requires
            0 <= index@ < self@.len(),
        ensures
            *r == self@[index@ as int],
    {
        &self.entries[index.value()]
    }
}

} // verus!
