//! Edits of a model: each replaces, appends to or inserts into the part that
//! a lens looks at.
use vstd::prelude::*;
use crate::model::change::{Change, Revision};
use crate::model::data::Data;
use crate::model::lens::Lens;

verus! {

/// An edit on a value of type `T`: a modification of a part of it.
pub trait Update<T: Data> {
    /// The edit can be made on `model`.
    spec fn applicable(&self, model: T) -> bool;

    /// `after` is what the edit makes of `before`.
    spec fn applied(&self, before: T, after: T) -> bool;

    /// The address of the part that the edit modifies.
    spec fn spec_address(&self) -> Option<T::Address>;

    /// Makes the edit on `model`, and describes the change.
    fn apply(&mut self, model: &mut T) -> (c: Change)
        requires
            old(self).applicable(*old(model)),
        ensures
            old(self).applied(*old(model), *final(model)),
    ;

    /// The address of the part that the edit modifies.
    fn address(&self) -> (r: Option<T::Address>)
        ensures
            r == self.spec_address(),
    ;
}

/// A view over a model, told of each of its revisions.
pub trait Watcher<Root: Data> {
    /// Called when something has changed.
    fn on_change(&self, revision: &Revision<Root>);
}

/// Replaces the part of a model that a lens looks at.
pub struct Replace<K, T> {
    pub lens: K,
    pub value: T,
}

impl<K, T> Replace<K, T> {
    /// Replaces what `lens` looks at by `value`.
    pub fn new(lens: K, value: T) -> (r: Replace<K, T>)
        ensures
            r.lens == lens,
            r.value == value,
    {
        Replace { lens, value }
    }
}

impl<S: Data, T: Data, K: Lens<S, T>> Update<S> for Replace<K, T> {
    open spec fn applicable(&self, model: S) -> bool {
        self.lens.seen(model) is Some
    }

    open spec fn applied(&self, before: S, after: S) -> bool {
        exists|v: T| cloned(self.value, v) && #[trigger] self.lens.replaced(before, after, v)
    }

    open spec fn spec_address(&self) -> Option<S::Address> {
        self.lens.joined(None)
    }

    fn apply(&mut self, data: &mut S) -> (c: Change)
        ensures
            c == Change::Replace,
    {
        let value = self.value.clone();
        let slot = self.lens.try_get_mut(data).unwrap();
        *slot = value;
        Change::replacement()
    }

    fn address(&self) -> (r: Option<S::Address>) {
        self.lens.address()
    }
}

/// Appends an element to the vector that a lens looks at.
pub struct Append<A, K> {
    pub lens: K,
    pub element: A,
}

impl<A, K> Append<A, K> {
    /// Appends `element` to the vector that `into` looks at.
    pub fn new(into: K, element: A) -> (r: Append<A, K>)
        ensures
            r.lens == into,
            r.element == element,
    {
        Append { lens: into, element }
    }
}

impl<S: Data, A: Data, K: Lens<S, Vec<A>>> Update<S> for Append<A, K> {
    open spec fn applicable(&self, model: S) -> bool {
        self.lens.seen(model) is Some
    }

    open spec fn applied(&self, before: S, after: S) -> bool {
        exists|items: Vec<A>|
            #[trigger] self.lens.replaced(before, after, items) && items@.len() == self.lens.seen(
                before,
            )->0@.len() + 1 && items@.drop_last() == self.lens.seen(before)->0@ && cloned(
                self.element,
                items@.last(),
            )
    }

    open spec fn spec_address(&self) -> Option<S::Address> {
        self.lens.joined(None)
    }

    fn apply(&mut self, data: &mut S) -> (c: Change)
        ensures
            c == Change::Replace,
    {
        let elem = self.element.clone();
        let items = self.lens.try_get_mut(data).unwrap();
        let ghost before = *items;
        items.push(elem);
        assert(items@.drop_last() =~= before@);
        Change::replacement()
    }

    fn address(&self) -> (r: Option<S::Address>) {
        self.lens.address()
    }
}

/// Inserts an element in the vector that a lens looks at.
pub struct Insert<A, K, I> {
    pub lens: K,
    pub index: I,
    pub element: A,
}

impl<A, K, I> Insert<A, K, I> {
    /// Inserts `element` at `index` in the vector that `into` looks at.
    pub fn new(into: K, index: I, element: A) -> (r: Insert<A, K, I>)
        ensures
            r.lens == into,
            r.index == index,
            r.element == element,
    {
        Insert { lens: into, index, element }
    }
}

impl<S: Data, A: Data, K: Lens<S, Vec<A>>> Update<S> for Insert<A, K, usize> {
    open spec fn applicable(&self, model: S) -> bool {
        self.lens.seen(model) matches Some(items) && self.index <= items@.len()
    }

    open spec fn applied(&self, before: S, after: S) -> bool {
        exists|items: Vec<A>|
            #[trigger] self.lens.replaced(before, after, items) && items@.len() == self.lens.seen(
                before,
            )->0@.len() + 1 && items@.remove(self.index as int) == self.lens.seen(before)->0@
                && cloned(self.element, items@[self.index as int])
    }

    open spec fn spec_address(&self) -> Option<S::Address> {
        self.lens.joined(None)
    }

    fn apply(&mut self, data: &mut S) -> (c: Change)
        ensures
            c == Change::Replace,
    {
        let index = self.index;
        let elem = self.element.clone();
        let items = self.lens.try_get_mut(data).unwrap();
        let ghost before = *items;
        items.insert(index, elem);
        assert(items@.remove(index as int) =~= before@);
        Change::replacement()
    }

    fn address(&self) -> (r: Option<S::Address>) {
        self.lens.address()
    }
}

} // verus!
