//! The four orientations of the cursor and the cycle between them.
use vstd::prelude::*;

verus! {

/// One of the four quarter-turn orientations.
#[derive(Clone, Copy, Debug, PartialEq, Eq, Structural)]
pub enum Rotation {
    Up,
    Right,
    Down,
    Left,
}

impl Rotation {
    /// The orientation that follows `self` in the cycle
    /// Up, Right, Down, Left, Up.
    pub open spec fn next(self) -> Rotation {
        match self {
            Rotation::Up => Rotation::Right,
            Rotation::Right => Rotation::Down,
            Rotation::Down => Rotation::Left,
            Rotation::Left => Rotation::Up,
        }
    }

    /// The angle of `self` in degrees: 0, 90, 180 and -90.
    pub open spec fn spec_angle(&self) -> i16 {
        match self {
            Rotation::Up => 0i16,
            Rotation::Right => 90i16,
            Rotation::Down => 180i16,
            Rotation::Left => -90i16,
        }
    }

    /// Advances to the next orientation of the cycle and returns its angle.
    pub fn rotate(&mut self) -> (angle: i16)
        ensures
            *final(self) == old(self).next(),
            angle == final(self).spec_angle(),
    {
        match *self {
            Rotation::Up => {
                *self = Rotation::Right;
            },
            Rotation::Right => {
                *self = Rotation::Down;
            },
            Rotation::Down => {
                *self = Rotation::Left;
            },
            Rotation::Left => {
                *self = Rotation::Up;
            },
        }
        self.angle()
    }

    /// The angle of the orientation in degrees.
    #[verifier::when_used_as_spec(spec_angle)]
    pub fn angle(&self) -> (angle: i16)
        ensures
            angle == self.spec_angle(),
    {
        match self {
            Rotation::Up => 0,
            Rotation::Right => 90,
            Rotation::Down => 180,
            Rotation::Left => -90,
        }
    }
}

impl Default for Rotation {
    /// The orientation a cursor starts with.
    fn default() -> (r: Rotation)
        ensures
            r == Rotation::Up,
    {
        Rotation::Up
    }
}

/// Four turns make a full turn.
pub proof fn full_turn(r: Rotation)
    ensures
        r.next().next().next().next() == r,
{
}

} // verus!
