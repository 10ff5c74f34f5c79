use vstd::prelude::*;

verus! {

/// An element that a stream can hand out by value: `duplicate` returns a value
/// equal to the original.
pub trait Duplicable: Sized {
    /// Returns a copy of this element.
    fn duplicate(&self) -> (r: Self)
        ensures
            r == *self,
    ;
}

impl Duplicable for char {
    fn duplicate(&self) -> (r: Self) {
        *self
    }
}

impl<A: Duplicable, B: Duplicable> Duplicable for (A, B) {
    fn duplicate(&self) -> (r: Self) {
        (self.0.duplicate(), self.1.duplicate())
    }
}

/// A generic forward cursor over an ordered, immutable sequence of elements.
///
/// The cursor owns the sequence and a single index; the index is in
/// `[0, len]`, and `index == len` means the stream is exhausted.  Absence is
/// represented by an empty result, never by a failure.
pub struct ElementStream<T> {
    elements: Vec<T>,
    index: usize,
}

impl<T> ElementStream<T> {
    /// The underlying sequence of elements.
    pub closed spec fn seq(&self) -> Seq<T> {
        self.elements@
    }

    /// The current cursor position.
    pub closed spec fn pos(&self) -> int {
        self.index as int
    }

    /// The cursor position never runs past the end of the sequence, and the
    /// sequence came from a vector, so its length fits the machine.
    pub open spec fn wf(&self) -> bool {
        0 <= self.pos() <= self.seq().len() <= usize::MAX
    }
}

impl<T: Duplicable> ElementStream<T> {
    /// Makes a stream over `elements` with the cursor at the start.
    pub fn new(elements: Vec<T>) -> (s: Self)
        ensures
            s.seq() == elements@,
            s.pos() == 0,
            s.wf(),
    {
        proof {
            assert(elements@.len() == elements.len());
        }
        Self { elements, index: 0 }
    }

    /// Returns a copy of the element at the cursor without advancing;
    /// `None` if the stream is exhausted.
    pub fn peek(&self) -> (r: Option<T>)
        ensures
            r == if self.pos() < self.seq().len() {
                Some(self.seq()[self.pos()])
            } else {
                Option::<T>::None
            },
    {
        if self.index >= self.elements.len() {
            return None;
        }
        Some(self.elements[self.index].duplicate())
    }

    /// Returns a copy of the element `by` positions behind the cursor;
    /// `None` if that position falls outside the sequence.
    pub fn previous(&self, by: usize) -> (r: Option<T>)
        ensures
            r == if 0 <= self.pos() - by < self.seq().len() {
                Some(self.seq()[self.pos() - by])
            } else {
                Option::<T>::None
            },
    {
        if by > self.index {
            return None;
        }
        let previous_index = self.index - by;
        if previous_index >= self.elements.len() {
            return None;
        }
        Some(self.elements[previous_index].duplicate())
    }

    /// Returns a copy of the element at the cursor and advances by one;
    /// `None` without advancing if the stream is exhausted.
    pub fn consume(&mut self) -> (r: Option<T>)
        ensures
            final(self).seq() == old(self).seq(),
            old(self).pos() < old(self).seq().len() ==> final(self).pos() == old(self).pos() + 1
                && r == Some(old(self).seq()[old(self).pos()]),
            old(self).pos() >= old(self).seq().len() ==> final(self).pos() == old(self).pos()
                && r is None,
    {
        if self.index >= self.elements.len() {
            return None;
        }
        let element = self.elements[self.index].duplicate();
        self.index = self.index + 1;
        Some(element)
    }

    /// Advances the cursor by one if the stream is not exhausted; no-op
    /// otherwise.  Used when the next element is already known from a peek.
    pub fn skip(&mut self)
        ensures
            final(self).seq() == old(self).seq(),
            final(self).pos() == if old(self).pos() < old(self).seq().len() {
                old(self).pos() + 1
            } else {
                old(self).pos()
            },
    {
        if self.index >= self.elements.len() {
            return;
        }
        self.index = self.index + 1;
    }
}

} // verus!
