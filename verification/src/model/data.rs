//! The `Data` trait: values whose parts can be addressed.
use vstd::prelude::*;

verus! {

/// A value of the model. `Address` uniquely identifies a component part of it.
pub trait Data: Clone + 'static {
    /// The type of a value that can uniquely identify a component part of the data.
    type Address: Clone;
}

/// A value of the model that has an identity of its own.
pub trait Identifiable: Data {
    type Id: Clone + Eq + PartialEq;

    fn id(&self) -> Self::Id;
}

/// An address into an indexed collection: an index, then the address of a part
/// of the element at that index, if any.
pub trait IndexAddress: Clone {
    type Element: Data;
    type Index;
    fn index(&self) -> Self::Index;
    fn rest(&self) -> &Option<<Self::Element as Data>::Address>;
}

} // verus!
