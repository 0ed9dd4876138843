//! The element identifier: a bounded integer in `[0, 117]`, equal to the
//! atomic number minus one. Range-checked constructors replace any
//! unchecked reinterpretation; an out-of-range identifier cannot be built.
use vstd::prelude::*;

verus! {

/// One of the 118 chemical elements, identified by a dense id in `[0, 117]`.
#[derive(Clone, Copy, PartialEq, Eq, Structural, Debug, Hash)]
pub struct Element {
    id: u8,
}

pub const ELEMENT_COUNT: u8 = 118;

impl Element {
    /// The dense identifier, as a mathematical integer.
    pub closed spec fn spec_id(self) -> int {
        self.id as int
    }

    pub open spec fn wf(self) -> bool {
        0 <= self.spec_id() < 118
    }

    /// The id is the atomic number starting at zero. Ids of 118 or more name
    /// no element and are rejected.
    pub fn from_id(id: u8) -> (r: Option<Element>)
        ensures
            match r {
                Some(e) => id < 118 && e.spec_id() == id,
                None => id >= 118,
            },
    {
        if id < ELEMENT_COUNT {
            Some(Element { id })
        } else {
            None
        }
    }

    /// Looks an element up by its atomic number; 0 and anything above 118
    /// match no element.
    pub fn from_atomic_number(z: usize) -> (r: Option<Element>)
        ensures
            match r {
                Some(e) => 1 <= z <= 118 && e.spec_id() == z - 1,
                None => z == 0 || z > 118,
            },
    {
        if z == 0 || z > ELEMENT_COUNT as usize {
            None
        } else {
            Some(Element { id: (z - 1) as u8 })
        }
    }

    pub fn get_atomic_number(&self) -> (z: usize)
        requires
            self.wf(),
        ensures
            z == self.spec_id() + 1,
    {
        self.id as usize + 1
    }

    /// The id is the atomic number starting at zero.
    pub fn get_id(&self) -> (id: u8)
        ensures
            id == self.spec_id(),
    {
        self.id
    }
}

} // verus!
