//! Lenses: accessors for a part of a value, which know the part's address.
use vstd::prelude::*;
use crate::model::change::{Change, Revision};
use crate::model::data::{Data, IndexAddress};
use std::marker::PhantomData;

verus! {

/// Address of a part of an element of a vector: the element's index, then the
/// address inside the element (`None`: the whole element).
pub struct VecAddress<T: Data>(pub usize, pub Option<T::Address>);

impl<T: Data> Clone for VecAddress<T> {
    fn clone(&self) -> (r: Self)
        ensures
            r.0 == self.0,
            self.1 is None ==> r.1 is None,
            self.1 is Some ==> r.1 is Some && cloned(self.1->0, r.1->0),
    {
        VecAddress(self.0, self.1.clone())
    }
}

impl<T: Data> IndexAddress for VecAddress<T> {
    type Element = T;
    type Index = usize;

    fn index(&self) -> (r: usize)
        ensures
            r == self.0,
    {
        self.0
    }

    fn rest(&self) -> (r: &Option<T::Address>)
        ensures
            *r == self.1,
    {
        &self.1
    }
}

/// A reified accessor for a part of type `B` of a value of type `A`.
///
/// Besides reaching the part, a lens knows its address within `A`, so that
/// a change made somewhere in an `A` can be told to concern the part or not.
pub trait Lens<A: Data, B: Data>: Sized {
    /// The part of `data` that the lens sees, if `data` has it.
    spec fn seen(&self, data: A) -> Option<B>;

    /// The address in `A` of the part at address `rest` within the part the
    /// lens sees (`None` for `rest`: the whole part). `None` where the lens
    /// has no address.
    spec fn joined(&self, rest: Option<B::Address>) -> Option<A::Address>;

    /// The address within the part that `addr` designates, if `addr` lies
    /// inside the part (`Some(None)`: the whole part).
    spec fn unprefixed(&self, addr: A::Address) -> Option<Option<B::Address>>;

    /// The part of `data` that the lens sees, if `data` has it.
    fn try_get<'a>(&self, data: &'a A) -> (r: Option<&'a B>)
        ensures
            match r {
                Some(b) => self.seen(*data) == Some(*b),
                None => self.seen(*data) is None,
            },
    ;

    /// `after` is `before` with the part the lens sees replaced by `part`.
    spec fn replaced(&self, before: A, after: A, part: B) -> bool;

    /// What is put where the lens looks is what the lens then sees.
    proof fn law_replaced_is_seen(&self, before: A, after: A, part: B)
        requires
            self.seen(before) is Some,
            self.replaced(before, after, part),
        ensures
            self.seen(after) == Some(part),
    ;

    /// The part of `data` that the lens sees, mutably, if `data` has it;
    /// what is written through it is written in `data`.
    fn try_get_mut<'a>(&self, data: &'a mut A) -> (r: Option<&'a mut B>)
        ensures
            match r {
                Some(b) => self.seen(*old(data)) == Some(*b) && self.replaced(
                    *old(data),
                    *final(data),
                    *final(b),
                ),
                None => self.seen(*old(data)) is None && *final(data) == *old(data),
            },
    ;

    /// The address of the part within `A`: the path from `&A` to `&B`.
    fn address(&self) -> (r: Option<A::Address>)
        ensures
            r == self.joined(None),
    ;

    /// The address within `A` of the part at address `rhs_address` within
    /// `B` (that of a lens applied after this one).
    fn concat(&self, rhs_address: Option<B::Address>) -> (r: Option<A::Address>)
        ensures
            r == self.joined(rhs_address),
    ;

    /// Removes the prefix of `addr` that leads to the part this lens looks
    /// at.
    fn unprefix(&self, addr: A::Address) -> (r: Option<Option<B::Address>>)
        ensures
            r == self.unprefixed(addr),
    ;

    /// Applies `f` to the part this lens sees, if `data` has it.
    fn try_with<R, F: FnOnce(&B) -> R>(&self, data: &A, f: F) -> (r: Option<R>)
        requires
            forall|b: &B| f.requires((b,)),
        ensures
            r is Some <==> self.seen(*data) is Some,
            r is Some ==> f.ensures((&self.seen(*data)->0,), r->0),
    {
        match self.try_get(data) {
            Some(b) => Some(f(b)),
            None => None,
        }
    }

    /// Applies `f` to the part this lens sees, which `data` must have.
    fn with<R, F: FnOnce(&B) -> R>(&self, data: &A, f: F) -> (r: R)
        requires
            forall|b: &B| f.requires((b,)),
            self.seen(*data) is Some,
        ensures
            f.ensures((&self.seen(*data)->0,), r),
    {
        f(self.try_get(data).unwrap())
    }

    /// Applies `f` to the revision of the part this lens sees which `src`
    /// makes, if the change that `src` describes concerns that part: a
    /// replaced source replaces the part, and a change at an address inside
    /// the part changes the part at the rest of the address.
    fn focus<'a, R, F: FnOnce(&Revision<'a, B>) -> R>(&self, src: Revision<'a, A>, f: F) -> (r:
        Option<R>)
        requires
            forall|rev: &Revision<'a, B>| f.requires((rev,)),
            src.change == Change::Replace || (src.addr matches Some(a) && self.unprefixed(a) is Some)
                ==> self.seen(*src.data) is Some,
        ensures
            r is Some <==> (src.change == Change::Replace || (src.addr matches Some(a)
                && self.unprefixed(a) is Some)),
            r is Some ==> f.ensures(
                (
                    &Revision {
                        data: &self.seen(*src.data)->0,
                        addr: if src.change == Change::Replace {
                            None
                        } else {
                            self.unprefixed(src.addr->0)->0
                        },
                        change: src.change,
                    },
                ),
                r->0,
            ),
    {
        if src.change == Change::Replace {
            let data = self.try_get(src.data).unwrap();
            let rev = Revision { change: src.change, addr: None, data };
            Some(f(&rev))
        } else {
            match src.addr {
                Some(addr) => match self.unprefix(addr) {
                    Some(suffix) => {
                        let data = self.try_get(src.data).unwrap();
                        let rev = Revision { addr: suffix, change: src.change, data };
                        Some(f(&rev))
                    },
                    None => None,
                },
                None => None,
            }
        }
    }
}

/// Accessors that copy out what a lens sees.
pub trait LensExt<A: Data, B: Data>: Lens<A, B> {
    /// A copy of the part that `src` revises, if the revision concerns it.
    fn get_if_changed(&self, src: Revision<A>) -> (r: Option<B>)
        requires
            src.change == Change::Replace || (src.addr matches Some(a) && self.unprefixed(a) is Some)
                ==> self.seen(*src.data) is Some,
        ensures
            r is Some <==> (src.change == Change::Replace || (src.addr matches Some(a)
                && self.unprefixed(a) is Some)),
            r is Some ==> cloned(self.seen(*src.data)->0, r->0),
    {
        self.focus(src, |s: &Revision<B>| -> (c: B)
            ensures
                cloned(*s.data, c),
            { s.data.clone() })
    }

    /// A copy of the part that the lens sees, which `src` must have.
    fn get(&self, src: &A) -> (r: B)
        requires
            self.seen(*src) is Some,
        ensures
            cloned(self.seen(*src)->0, r),
    {
        self.with(src, |x: &B| -> (c: B)
            ensures
                cloned(*x, c),
            { x.clone() })
    }
}

impl<A: Data, B: Data, L: Lens<A, B>> LensExt<A, B> for L {

}

/// Indexing: the lens on an element of the vector a lens looks at.
pub trait LensIndexExt<A: Data, B: Data>: Lens<A, B> {
    type Output: Data;
    type Lens: Lens<A, Self::Output>;

    fn index(self, i: usize) -> Self::Lens;
}

/// Key lookup: the lens on the element with a key in the collection a lens
/// looks at.
pub trait LensLookupExt<A: Data, B: Data>: Lens<A, B> {
    type Key: Copy + Clone + Eq + PartialEq;
    type Output: Data;
    type Lens: Lens<A, Self::Output>;

    fn by_key(&self, key: Self::Key) -> Self::Lens;
}

impl<A: Data, T: Data, K: Lens<A, Vec<T>>> LensIndexExt<A, Vec<T>> for K {
    type Output = T;
    type Lens = LensCompose<K, VecLens<T>, Vec<T>>;

    fn index(self, i: usize) -> (r: LensCompose<K, VecLens<T>, Vec<T>>)
        ensures
            r.0 == self,
            r.1.target() == i,
    {
        LensCompose(self, VecLens::new(i), PhantomData)
    }
}

impl<T: Data> Data for Vec<T> {
    type Address = VecAddress<T>;
}

/// A lens that looks at a particular item in a vector.
pub struct VecLens<T> {
    index: usize,
    _phantom: PhantomData<T>,
}

impl<T> VecLens<T> {
    /// Index of the element the lens looks at.
    pub closed spec fn target(&self) -> usize {
        self.index
    }

    /// The lens on the element at `index`.
    pub fn new(index: usize) -> (l: VecLens<T>)
        ensures
            l.target() == index,
    {
        VecLens { index, _phantom: PhantomData }
    }

    /// A lens on the same element.
    pub fn clone(&self) -> (l: VecLens<T>)
        ensures
            l.target() == self.target(),
    {
        VecLens { index: self.index, _phantom: PhantomData }
    }
}

impl<T: Data> Lens<Vec<T>, T> for VecLens<T> {
    open spec fn seen(&self, data: Vec<T>) -> Option<T> {
        if self.target() < data@.len() {
            Some(data@[self.target() as int])
        } else {
            None
        }
    }

    open spec fn joined(&self, rest: Option<T::Address>) -> Option<VecAddress<T>> {
        Some(VecAddress(self.target(), rest))
    }

    open spec fn unprefixed(&self, addr: VecAddress<T>) -> Option<Option<T::Address>> {
        if addr.0 == self.target() {
            Some(addr.1)
        } else {
            None
        }
    }

    fn try_get<'a>(&self, data: &'a Vec<T>) -> (r: Option<&'a T>) {
        if self.index < data.len() {
            Some(&data[self.index])
        } else {
            None
        }
    }

    open spec fn replaced(&self, before: Vec<T>, after: Vec<T>, part: T) -> bool {
        after@ == before@.update(self.target() as int, part)
    }

    proof fn law_replaced_is_seen(&self, before: Vec<T>, after: Vec<T>, part: T) {
    }

    fn try_get_mut<'a>(&self, data: &'a mut Vec<T>) -> (r: Option<&'a mut T>) {
        if self.index < data.len() {
            Some(&mut data[self.index])
        } else {
            None
        }
    }

    fn address(&self) -> (r: Option<VecAddress<T>>) {
        Some(VecAddress(self.index, None))
    }

    fn concat(&self, rhs_address: Option<T::Address>) -> (r: Option<VecAddress<T>>) {
        Some(VecAddress(self.index, rhs_address))
    }

    fn unprefix(&self, addr: VecAddress<T>) -> (r: Option<Option<T::Address>>) {
        if self.index == addr.0 {
            Some(addr.1)
        } else {
            None
        }
    }
}

/// The lens that sees the whole value.
#[derive(Copy, Clone, Debug)]
pub struct IdentityLens;

impl<A: Data> Lens<A, A> for IdentityLens {
    open spec fn seen(&self, data: A) -> Option<A> {
        Some(data)
    }

    open spec fn joined(&self, rest: Option<A::Address>) -> Option<A::Address> {
        rest
    }

    open spec fn unprefixed(&self, addr: A::Address) -> Option<Option<A::Address>> {
        Some(Some(addr))
    }

    fn try_get<'a>(&self, data: &'a A) -> (r: Option<&'a A>) {
        Some(data)
    }

    open spec fn replaced(&self, before: A, after: A, part: A) -> bool {
        after == part
    }

    proof fn law_replaced_is_seen(&self, before: A, after: A, part: A) {
    }

    fn try_get_mut<'a>(&self, data: &'a mut A) -> (r: Option<&'a mut A>) {
        Some(data)
    }

    fn address(&self) -> (r: Option<A::Address>) {
        None
    }

    fn concat(&self, rhs_address: Option<A::Address>) -> (r: Option<A::Address>) {
        rhs_address
    }

    fn unprefix(&self, addr: A::Address) -> (r: Option<Option<A::Address>>) {
        Some(Some(addr))
    }
}

/// Lens composition: combines `Lens<A, B>` and `Lens<B, C>` to `Lens<A, C>`,
/// which applies the two lenses in succession.
pub struct LensCompose<K, L, B>(pub K, pub L, pub PhantomData<B>);

/// The lens that applies `lens`, then `rhs`.
pub fn compose<A: Data, B: Data, C: Data, K: Lens<A, B>, L: Lens<B, C>>(lens: K, rhs: L) -> (r:
    LensCompose<K, L, B>)
    ensures
        r.0 == lens,
        r.1 == rhs,
{
    LensCompose(lens, rhs, PhantomData)
}

impl<K, L, A: Data, B: Data, C: Data> Lens<A, C> for LensCompose<K, L, B> where
    K: Lens<A, B>,
    L: Lens<B, C>,
 {
    open spec fn seen(&self, data: A) -> Option<C> {
        match self.0.seen(data) {
            Some(b) => self.1.seen(b),
            None => None,
        }
    }

    open spec fn joined(&self, rest: Option<C::Address>) -> Option<A::Address> {
        self.0.joined(self.1.joined(rest))
    }

    open spec fn unprefixed(&self, addr: A::Address) -> Option<Option<C::Address>> {
        match self.0.unprefixed(addr) {
            Some(Some(inner)) => self.1.unprefixed(inner),
            _ => None,
        }
    }

    fn try_get<'a>(&self, data: &'a A) -> (r: Option<&'a C>) {
        match self.0.try_get(data) {
            Some(b) => self.1.try_get(b),
            None => None,
        }
    }

    open spec fn replaced(&self, before: A, after: A, part: C) -> bool {
        exists|mid: B|
            self.0.replaced(before, after, mid) && #[trigger] self.1.replaced(
                self.0.seen(before)->0,
                mid,
                part,
            )
    }

    fn try_get_mut<'a>(&self, data: &'a mut A) -> (r: Option<&'a mut C>) {
        if self.try_get(data).is_none() {
            return None;
        }
        match self.0.try_get_mut(data) {
            Some(b) => self.1.try_get_mut(b),
            None => None,
        }
    }

    proof fn law_replaced_is_seen(&self, before: A, after: A, part: C) {
        let mid = choose|mid: B|
            self.0.replaced(before, after, mid) && #[trigger] self.1.replaced(
                self.0.seen(before)->0,
                mid,
                part,
            );
        self.0.law_replaced_is_seen(before, after, mid);
        self.1.law_replaced_is_seen(self.0.seen(before)->0, mid, part);
    }

    fn address(&self) -> (r: Option<A::Address>) {
        self.0.concat(self.1.address())
    }

    fn concat(&self, rhs_address: Option<C::Address>) -> (r: Option<A::Address>) {
        self.0.concat(self.1.concat(rhs_address))
    }

    fn unprefix(&self, addr: A::Address) -> (r: Option<Option<C::Address>>) {
        match self.0.unprefix(addr) {
            Some(Some(inner)) => self.1.unprefix(inner),
            _ => None,
        }
    }
}

} // verus!
