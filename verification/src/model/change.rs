//! Descriptions of changes applied to data.
use vstd::prelude::*;
use crate::model::data::Data;
use std::ops::Range;

verus! {

/// Summary of changes to a collection.
///
/// Represents a summary of the modifications applied to a collection between two predefined points
/// in time.
#[derive(Copy, Clone, Debug, PartialEq, Eq, Structural)]
pub enum CollectionChanges {
    Relayout,
    Splice { start: usize, remove: usize, insert: usize },
    Update { start: usize, end: usize },
}

/// Describes a change applied to some data.
#[derive(Copy, Clone, Debug, PartialEq, Eq, Structural)]
pub enum Change {
    /// No changes
    Empty,
    /// Elements were inserted or removed into a collection.
    Collection(CollectionChanges),
    /// The entire element was replaced.
    Replace,
}

impl Change {
    /// The entire element was replaced.
    pub fn replacement() -> (c: Change)
        ensures
            c == Change::Replace,
    {
        Change::Replace
    }

    /// Nothing changed.
    pub fn empty() -> (c: Change)
        ensures
            c == Change::Empty,
    {
        Change::Empty
    }

    /// The elements of a collection must be laid out again.
    pub fn relayout() -> (c: Change)
        ensures
            c == Change::Collection(CollectionChanges::Relayout),
    {
        Change::Collection(CollectionChanges::Relayout)
    }

    /// `len` elements were inserted at `at`.
    pub fn insertion(at: usize, len: usize) -> (c: Change)
        ensures
            c == Change::Collection(CollectionChanges::Splice { start: at, remove: 0, insert: len }),
    {
        Change::Collection(CollectionChanges::Splice { start: at, remove: 0, insert: len })
    }

    /// `len` elements were removed at `at`.
    pub fn deletion(at: usize, len: usize) -> (c: Change)
        ensures
            c == Change::Collection(CollectionChanges::Splice { start: at, remove: len, insert: 0 }),
    {
        Change::Collection(CollectionChanges::Splice { start: at, remove: len, insert: 0 })
    }

    /// `remove` elements at `at` were replaced by `insert` new ones.
    pub fn splicing(at: usize, remove: usize, insert: usize) -> (c: Change)
        ensures
            c == Change::Collection(CollectionChanges::Splice { start: at, remove, insert }),
    {
        Change::Collection(CollectionChanges::Splice { start: at, remove, insert })
    }

    /// The elements in `range` were modified in place.
    pub fn update(range: Range<usize>) -> (c: Change)
        ensures
            c == Change::Collection(CollectionChanges::Update { start: range.start, end: range.end }),
    {
        Change::Collection(CollectionChanges::Update { start: range.start, end: range.end })
    }
}

/// A snapshot of data, with the change that produced it and the address of the
/// changed part (`None`: the whole data).
pub struct Revision<'a, Root: Data> {
    pub data: &'a Root,
    pub addr: Option<Root::Address>,
    pub change: Change,
}

impl<'a, Root: Data> Revision<'a, Root> {
    /// A revision in which the whole of `data` was replaced.
    pub fn from_data(data: &'a Root) -> (r: Revision<'a, Root>)
        ensures
            r.data == data,
            r.addr is None,
            r.change == Change::Replace,
    {
        Revision { data, change: Change::Replace, addr: None }
    }

    /// Whether the whole data was replaced.
    pub fn replaced(&self) -> (r: bool)
        ensures
            r == (self.change == Change::Replace),
    {
        self.change == Change::Replace
    }

    /// The changes made to the collection, if the data is a collection that changed.
    pub fn collection_changes(&self) -> (r: Option<&CollectionChanges>)
        ensures
            match self.change {
                Change::Collection(c) => r == Some(&c),
                _ => r is None,
            },
    {
        match &self.change {
            Change::Collection(changes) => Some(changes),
            _ => None,
        }
    }
}

} // verus!
