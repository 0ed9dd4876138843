//! Bidirectional iteration over the full element set: a forward cursor and a
//! backward cursor converge on the 118 identifiers; the sequence is exhausted
//! exactly when they meet, and the remaining count is exact at every point.
use vstd::prelude::*;

use crate::element::Element;

verus! {

/// A restartable double-ended cursor pair over all 118 elements in ascending
/// atomic-number order.
pub struct PeriodicTableIterator {
    l: u8,
    r: u8,
}

/// The full element set, ready to be traversed from either end.
pub fn periodic_table() -> (it: PeriodicTableIterator)
    ensures
        it.wf(),
        it.remaining() == Seq::new(118, |i: int| i),
{
    let it = PeriodicTableIterator { l: 0, r: 118 };
    proof {
        assert(it.remaining() =~= Seq::new(118, |i: int| i));
    }
    it
}

impl PeriodicTableIterator {
    pub closed spec fn spec_l(self) -> int {
        self.l as int
    }

    pub closed spec fn spec_r(self) -> int {
        self.r as int
    }

    pub open spec fn wf(self) -> bool {
        0 <= self.spec_l() <= self.spec_r() <= 118
    }

    /// The identifiers not yet yielded from either end, in ascending order.
    pub open spec fn remaining(self) -> Seq<int> {
        Seq::new((self.spec_r() - self.spec_l()) as nat, |i: int| self.spec_l() + i)
    }

    /// Yields the next element from the front, or nothing once the cursors
    /// have met.
    pub fn next(&mut self) -> (r: Option<Element>)
        requires
            old(self).wf(),
        ensures
            final(self).wf(),
            final(self).spec_r() == old(self).spec_r(),
            match r {
                Some(e) => {
                    &&& old(self).spec_l() < old(self).spec_r()
                    &&& e.wf()
                    &&& e.spec_id() == old(self).spec_l()
                    &&& final(self).spec_l() == old(self).spec_l() + 1
                    &&& old(self).remaining() == seq![e.spec_id()] + final(self).remaining()
                },
                None => {
                    &&& old(self).spec_l() == old(self).spec_r()
                    &&& *final(self) == *old(self)
                },
            },
    {
        if self.l >= self.r {
            return None;
        }
        let e = Element::from_id(self.l);
        self.l = self.l + 1;
        proof {
            assert(old(self).remaining() =~= seq![old(self).spec_l()] + self.remaining());
        }
        e
    }

    /// Yields the next element from the back, or nothing once the cursors
    /// have met.
    pub fn next_back(&mut self) -> (r: Option<Element>)
        requires
            old(self).wf(),
        ensures
            final(self).wf(),
            final(self).spec_l() == old(self).spec_l(),
            match r {
                Some(e) => {
                    &&& old(self).spec_l() < old(self).spec_r()
                    &&& e.wf()
                    &&& e.spec_id() == old(self).spec_r() - 1
                    &&& final(self).spec_r() == old(self).spec_r() - 1
                    &&& old(self).remaining() == final(self).remaining() + seq![e.spec_id()]
                },
                None => {
                    &&& old(self).spec_l() == old(self).spec_r()
                    &&& *final(self) == *old(self)
                },
            },
    {
        if self.l >= self.r {
            return None;
        }
        self.r = self.r - 1;
        let e = Element::from_id(self.r);
        proof {
            assert(old(self).remaining() =~= self.remaining() + seq![self.spec_r() as int]);
        }
        e
    }

    /// The exact count of elements not yet yielded from either end; it
    /// reaches zero exactly when the two cursors meet.
    pub fn len(&self) -> (n: usize)
        requires
            self.wf(),
        ensures
            n == self.remaining().len(),
            (n == 0) == (self.spec_l() == self.spec_r()),
    {
        (self.r - self.l) as usize
    }
}

} // verus!
