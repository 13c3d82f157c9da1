use vstd::prelude::*;

verus! {

/// A cell coordinate on the board: column first, then row.
#[derive(Debug, Copy, Clone, PartialEq, Eq, Structural)]
pub struct Position(pub u8, pub u8);

impl Position {
    pub fn x(&self) -> (r: u8)
        ensures
            r == self.0,
    {
        self.0
    }

    pub fn y(&self) -> (r: u8)
        ensures
            r == self.1,
    {
        self.1
    }
}

impl From<(u8, u8)> for Position {
    fn from(value: (u8, u8)) -> (r: Self) {
        Position(value.0, value.1)
    }
}

impl vstd::std_specs::convert::FromSpecImpl<(u8, u8)> for Position {
    open spec fn obeys_from_spec() -> bool {
        true
    }

    open spec fn from_spec(value: (u8, u8)) -> Self {
        Position(value.0, value.1)
    }
}

} // verus!
