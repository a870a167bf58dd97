use std::ops::{Add, AddAssign};
use vstd::prelude::*;
use vstd::std_specs::ops::AddSpecImpl;

verus! {

/// A pair of small integers: a board position (column, row) or a displacement.
#[derive(Debug, Clone, Copy, PartialEq, Eq, Structural)]
pub struct Coord(pub i8, pub i8);

impl Coord {
    /// Both components of the sum fit in an `i8`.
    pub open spec fn sum_fits(self, rhs: Coord) -> bool {
        &&& i8::MIN <= self.0 + rhs.0 <= i8::MAX
        &&& i8::MIN <= self.1 + rhs.1 <= i8::MAX
    }

    /// The componentwise sum.
    pub open spec fn plus(self, rhs: Coord) -> Coord {
        Coord((self.0 + rhs.0) as i8, (self.1 + rhs.1) as i8)
    }
}

impl Add for Coord {
    type Output = Self;

    fn add(self, rhs: Self) -> (r: Self::Output) {
        let Coord(x1, y1) = self;
        let Coord(x2, y2) = rhs;
        Coord(x1 + x2, y1 + y2)
    }
}

impl AddSpecImpl for Coord {
    open spec fn obeys_add_spec() -> bool {
        true
    }

    open spec fn add_req(self, rhs: Coord) -> bool {
        self.sum_fits(rhs)
    }

    open spec fn add_spec(self, rhs: Coord) -> Coord {
        self.plus(rhs)
    }
}

impl AddAssign for Coord {
    fn add_assign(&mut self, rhs: Self)
        requires
            old(self).sum_fits(rhs),
        ensures
            *final(self) == old(self).plus(rhs),
    {
        self.0 = self.0 + rhs.0;
        self.1 = self.1 + rhs.1;
    }
}

} // verus!
