//! Gap buffer: a sequence with cheap insertion and removal near a moving gap.
use vstd::prelude::*;
use std::ops::Range;

verus! {

/// A sequence stored in a buffer with a gap of free slots at `gap_pos`.
///
/// Slots outside the gap hold the elements, in order; slots in the gap are
/// free. Inserting or removing moves the gap to the position first, so that a
/// run of edits at nearby positions moves few elements.
pub struct GapBuffer<T> {
    buf: Vec<Option<T>>,
    gap_pos: usize,
    gap_size: usize,
}

impl<T> GapBuffer<T> {
    /// The buffer's slots are free exactly inside the gap, which lies within the buffer.
    pub closed spec fn wf(&self) -> bool {
        &&& self.gap_pos + self.gap_size <= self.buf@.len() <= usize::MAX
        &&& forall|i: int|
            0 <= i < self.buf@.len() ==> (#[trigger] self.buf@[i] is None <==> (self.gap_pos <= i
                < self.gap_pos + self.gap_size))
    }

    /// Number of slots in the buffer.
    pub closed spec fn capacity(&self) -> nat {
        self.buf@.len()
    }

    /// A well-formed buffer holds no more elements than it has slots.
    pub proof fn lemma_len_le_capacity(&self)
        requires
            self.wf(),
        ensures
            self@.len() <= self.capacity(),
    {
    }

    /// Index of the slot that holds element `i`.
    closed spec fn slot_of(&self, i: int) -> int {
        if i < self.gap_pos {
            i
        } else {
            i + self.gap_size
        }
    }

    /// The elements, in order.
    pub closed spec fn view(&self) -> Seq<T> {
        Seq::new(
            (self.buf@.len() - self.gap_size) as nat,
            |i: int| self.buf@[self.slot_of(i)]->0,
        )
    }

    /// Creates an empty gap buffer.
    pub fn new() -> (g: GapBuffer<T>)
        ensures
            g.wf(),
            g@ == Seq::<T>::empty(),
            g.capacity() == 0,
    {
        let g = GapBuffer { buf: Vec::new(), gap_pos: 0, gap_size: 0 };
        assert(g@ =~= Seq::<T>::empty());
        g
    }

    /// Returns the number of elements.
    pub fn len(&self) -> (n: usize)
        requires
            self.wf(),
        ensures
            n == self@.len(),
    {
        self.buf.len() - self.gap_size
    }

    /// Doubles the number of slots (one slot for an empty buffer) and places
    /// the gap over the new slots, at the end.
    fn grow(&mut self)
        requires
            old(self).wf(),
            old(self).gap_size == 0,
            old(self).buf@.len() * 2 <= usize::MAX,
        ensures
            final(self).wf(),
            final(self)@ == old(self)@,
            final(self).gap_size > 0,
            final(self).buf@.len() == (if old(self).buf@.len() == 0 {
                1
            } else {
                2 * old(self).buf@.len()
            }),
    {
        let len = self.buf.len();
        let new_cap = if len == 0 {
            1
        } else {
            2 * len
        };
        let ghost old_view = self@;
        let mut k = len;
        while k < new_cap
            invariant
                len <= k <= new_cap,
                self.buf@.len() == k,
                self.gap_size == 0,
                self.gap_pos <= len,
                old(self).buf@.len() == len,
                forall|i: int| 0 <= i < len ==> self.buf@[i] == old(self).buf@[i],
                forall|i: int| len <= i < k ==> self.buf@[i] is None,
            decreases new_cap - k,
        {
            self.buf.push(None);
            k = k + 1;
        }
        self.gap_pos = len;
        self.gap_size = new_cap - len;
        assert(self@ =~= old_view);
    }

    /// Moves the gap one slot to the right: the element just after the gap
    /// moves to its first slot.
    fn shift_gap_right(&mut self)
        requires
            old(self).wf(),
            old(self).gap_size > 0,
            old(self).gap_pos + old(self).gap_size < old(self).buf@.len(),
        ensures
            final(self).wf(),
            final(self)@ == old(self)@,
            final(self).gap_pos == old(self).gap_pos + 1,
            final(self).gap_size == old(self).gap_size,
            final(self).buf@.len() == old(self).buf@.len(),
    {
        let from = self.gap_pos + self.gap_size;
        let to = self.gap_pos;
        let elem = self.buf[from].take();
        self.buf.set(to, elem);
        self.gap_pos = self.gap_pos + 1;
        assert(self@ =~= old(self)@);
    }

    /// Moves the gap one slot to the left: the element just before the gap
    /// moves to its last slot.
    fn shift_gap_left(&mut self)
        requires
            old(self).wf(),
            old(self).gap_size > 0,
            old(self).gap_pos > 0,
        ensures
            final(self).wf(),
            final(self)@ == old(self)@,
            final(self).gap_pos == old(self).gap_pos - 1,
            final(self).gap_size == old(self).gap_size,
            final(self).buf@.len() == old(self).buf@.len(),
    {
        let from = self.gap_pos - 1;
        let to = self.gap_pos + self.gap_size - 1;
        let elem = self.buf[from].take();
        self.buf.set(to, elem);
        self.gap_pos = self.gap_pos - 1;
        assert(self@ =~= old(self)@);
    }

    /// Moves the gap to element position `pos`, first making room for one
    /// more element if `grow` is set and the gap is empty.
    fn move_gap(&mut self, pos: usize, grow: bool)
        requires
            old(self).wf(),
            pos <= old(self)@.len(),
            grow ==> old(self).buf@.len() * 2 <= usize::MAX,
        ensures
            final(self).wf(),
            final(self)@ == old(self)@,
            final(self).gap_pos == pos,
            grow ==> final(self).gap_size > 0,
            !grow ==> final(self).gap_size == old(self).gap_size,
            final(self).buf@.len() == (if grow && old(self).gap_size == 0 {
                if old(self).buf@.len() == 0 {
                    1
                } else {
                    2 * old(self).buf@.len()
                }
            } else {
                old(self).buf@.len()
            }),
    {
        let ghost cap = if grow && self.gap_size == 0 {
            if self.buf@.len() == 0 {
                1
            } else {
                2 * self.buf@.len()
            }
        } else {
            self.buf@.len()
        };
        if self.gap_size == 0 {
            if grow {
                self.grow();
            } else {
                // empty gap, but did not ask to grow: just move the position
                self.gap_pos = pos;
                assert(self@ =~= old(self)@);
                return;
            }
        }
        while self.gap_pos < pos
            invariant
                self.wf(),
                self@ == old(self)@,
                self.gap_size > 0,
                pos <= self@.len(),
                grow ==> self.gap_size > 0,
                !grow ==> self.gap_size == old(self).gap_size,
                self.buf@.len() == cap,
            decreases pos - self.gap_pos,
        {
            self.shift_gap_right();
        }
        while self.gap_pos > pos
            invariant
                self.wf(),
                self@ == old(self)@,
                self.gap_size > 0,
                pos <= self.gap_pos,
                grow ==> self.gap_size > 0,
                !grow ==> self.gap_size == old(self).gap_size,
                self.buf@.len() == cap,
            decreases self.gap_pos - pos,
        {
            self.shift_gap_left();
        }
    }

    /// Moves the gap at the given location and inserts the element.
    pub fn insert(&mut self, pos: usize, elem: T)
        requires
            old(self).wf(),
            pos <= old(self)@.len(),
            old(self).capacity() * 2 <= usize::MAX,
        ensures
            final(self).wf(),
            final(self)@ == old(self)@.insert(pos as int, elem),
            final(self).capacity() == (if old(self)@.len() < old(self).capacity() {
                old(self).capacity()
            } else if old(self).capacity() == 0 {
                1
            } else {
                2 * old(self).capacity()
            }),
    {
        self.move_gap(pos, true);
        let ghost moved = self@;
        self.buf.set(pos, Some(elem));
        self.gap_pos = self.gap_pos + 1;
        self.gap_size = self.gap_size - 1;
        assert(self@ =~= moved.insert(pos as int, elem));
    }

    /// Moves the gap to the given position and removes the element.
    pub fn remove(&mut self, pos: usize) -> (elem: T)
        requires
            old(self).wf(),
            pos < old(self)@.len(),
        ensures
            final(self).wf(),
            elem == old(self)@[pos as int],
            final(self)@ == old(self)@.remove(pos as int),
            final(self).capacity() == old(self).capacity(),
    {
        self.move_gap(pos, false);
        let ghost moved = self@;
        let slot = self.gap_pos + self.gap_size;
        let val = self.buf[slot].take();
        self.gap_size = self.gap_size + 1;
        assert(self@ =~= moved.remove(pos as int));
        val.unwrap()
    }

    /// Index of the slot that holds element `pos`.
    fn elem_slot(&self, pos: usize) -> (slot: usize)
        requires
            self.wf(),
            pos < self@.len(),
        ensures
            slot == self.slot_of(pos as int),
            slot < self.buf@.len(),
            self.buf@[slot as int] is Some,
    {
        if pos < self.gap_pos {
            pos
        } else {
            self.gap_size + pos
        }
    }

    /// Returns the element at `index`.
    pub fn index(&self, index: usize) -> (r: &T)
        requires
            self.wf(),
            index < self@.len(),
        ensures
            *r == self@[index as int],
    {
        let slot = self.elem_slot(index);
        self.buf[slot].as_ref().unwrap()
    }

    /// Replaces the element at `index`, returning the previous one.
    pub fn set(&mut self, index: usize, value: T) -> (prev: T)
        requires
            old(self).wf(),
            index < old(self)@.len(),
        ensures
            final(self).wf(),
            prev == old(self)@[index as int],
            final(self)@ == old(self)@.update(index as int, value),
            final(self).capacity() == old(self).capacity(),
    {
        let slot = self.elem_slot(index);
        let prev = self.buf[slot].take();
        self.buf.set(slot, Some(value));
        assert(self@ =~= old(self)@.update(index as int, value));
        prev.unwrap()
    }

    /// Returns the elements in `range`, in order.
    pub fn iter(&self, range: Range<usize>) -> (items: Vec<&T>)
        requires
            self.wf(),
            range.start <= range.end <= self@.len(),
        ensures
            items@.len() == range.end - range.start,
            forall|i: int| 0 <= i < items@.len() ==> *items@[i] == self@[range.start + i],
    {
        let mut items: Vec<&T> = Vec::new();
        let mut k = range.start;
        while k < range.end
            invariant
                self.wf(),
                range.start <= k <= range.end <= self@.len(),
                items@.len() == k - range.start,
                forall|i: int| 0 <= i < items@.len() ==> *items@[i] == self@[range.start + i],
            decreases range.end - k,
        {
            items.push(self.index(k));
            k = k + 1;
        }
        items
    }
}

/// Removing the element just inserted at the same position gives it back and
/// restores the previous contents.
pub proof fn law_insert_then_remove<T>(before: Seq<T>, pos: int, elem: T)
    requires
        0 <= pos <= before.len(),
    ensures
        before.insert(pos, elem)[pos] == elem,
        before.insert(pos, elem).remove(pos) == before,
{
    assert(before.insert(pos, elem).remove(pos) =~= before);
}

/// Inserting at a position shifts the later elements by one and keeps the
/// earlier ones.
pub proof fn law_insert_shifts<T>(before: Seq<T>, pos: int, elem: T, i: int)
    requires
        0 <= pos <= before.len(),
        0 <= i < before.len(),
    ensures
        i < pos ==> before.insert(pos, elem)[i] == before[i],
        i >= pos ==> before.insert(pos, elem)[i + 1] == before[i],
        before.insert(pos, elem).len() == before.len() + 1,
{
}

} // verus!
