//! The eight compass directions and a step count along one of them.

use vstd::prelude::*;
use crate::Vector2D;
use crate::random::{gen_range, thread_rng};

verus! {

/// A compass direction; north is up, towards smaller `y`.
#[derive(Clone, Copy, Debug, PartialEq, Eq, Structural)]
pub enum Cardinal {
    N,
    NE,
    E,
    SE,
    S,
    SW,
    W,
    NW,
}

/// The unit step of a cardinal, as `(dx, dy)`.
pub open spec fn step_of(c: Cardinal) -> (int, int) {
    match c {
        Cardinal::N => (0, -1),
        Cardinal::NE => (1, -1),
        Cardinal::E => (1, 0),
        Cardinal::SE => (1, 1),
        Cardinal::S => (0, 1),
        Cardinal::SW => (-1, 1),
        Cardinal::W => (-1, 0),
        Cardinal::NW => (-1, -1),
    }
}

/// The cardinals in compass order, starting at north.
pub open spec fn all_cardinals() -> Seq<Cardinal> {
    seq![
        Cardinal::N,
        Cardinal::NE,
        Cardinal::E,
        Cardinal::SE,
        Cardinal::S,
        Cardinal::SW,
        Cardinal::W,
        Cardinal::NW,
    ]
}

impl Cardinal {
    /// The unit step of this cardinal.
    pub fn factor(&self) -> (v: Vector2D)
        ensures
            v.x == step_of(*self).0,
            v.y == step_of(*self).1,
    {
        match self {
            Cardinal::N => Vector2D { x: 0, y: -1 },
            Cardinal::NE => Vector2D { x: 1, y: -1 },
            Cardinal::E => Vector2D { x: 1, y: 0 },
            Cardinal::SE => Vector2D { x: 1, y: 1 },
            Cardinal::S => Vector2D { x: 0, y: 1 },
            Cardinal::SW => Vector2D { x: -1, y: 1 },
            Cardinal::W => Vector2D { x: -1, y: 0 },
            Cardinal::NW => Vector2D { x: -1, y: -1 },
        }
    }

    /// The cardinal at a position of the compass order.
    pub fn from_index(i: u32) -> (c: Cardinal)
        requires
            i < 8,
        ensures
            c == all_cardinals()[i as int],
    {
        if i == 0 {
            Cardinal::N
        } else if i == 1 {
            Cardinal::NE
        } else if i == 2 {
            Cardinal::E
        } else if i == 3 {
            Cardinal::SE
        } else if i == 4 {
            Cardinal::S
        } else if i == 5 {
            Cardinal::SW
        } else if i == 6 {
            Cardinal::W
        } else {
            Cardinal::NW
        }
    }

    /// All eight cardinals, in compass order starting at north.
    pub fn iter() -> (v: Vec<Cardinal>)
        ensures
            v@ == all_cardinals(),
    {
        let v = vec![
            Cardinal::N,
            Cardinal::NE,
            Cardinal::E,
            Cardinal::SE,
            Cardinal::S,
            Cardinal::SW,
            Cardinal::W,
            Cardinal::NW,
        ];
        assert(v@ =~= all_cardinals());
        v
    }
}

/// A number of steps along a cardinal.
#[derive(Clone, Copy, Debug, PartialEq, Eq, Structural)]
pub struct Direction {
    pub cardinal: Cardinal,
    pub distance: u32,
}

impl Direction {
    pub fn new(cardinal: Cardinal, distance: u32) -> (d: Direction)
        ensures
            d == (Direction { cardinal, distance }),
    {
        Direction { cardinal, distance }
    }

    /// A direction of the given length along a cardinal drawn at random.
    pub fn new_rng(distance: u32) -> (d: Direction)
        ensures
            d.distance == distance,
            all_cardinals().contains(d.cardinal),
    {
        let mut rng = thread_rng();
        let i = gen_range(&mut rng, 0, 7);
        let cardinal = Cardinal::from_index(i);
        Direction { cardinal, distance }
    }

    /// The unit step of the direction's cardinal.
    pub fn factor(&self) -> (v: Vector2D)
        ensures
            v.x == step_of(self.cardinal).0,
            v.y == step_of(self.cardinal).1,
    {
        self.cardinal.factor()
    }

    pub fn distance(&self) -> (d: u32)
        ensures
            d == self.distance,
    {
        self.distance
    }

    pub fn set_distance(&mut self, distance: u32)
        ensures
            *final(self) == (Direction { cardinal: old(self).cardinal, distance }),
    {
        self.distance = distance;
    }
}

} // verus!
