//! What a cell asks of the world in one frame: to move, to burn, to eat a
//! neighbour, and so on. The world carries these out in order.

use vstd::prelude::*;
use crate::{Direction, Element, Vector2D};
use crate::direction::Cardinal;

verus! {

/// The kind of a request.
#[derive(Clone, Copy, Debug, PartialEq, Eq, Structural)]
pub enum ActionType {
    Move,
    Burn,
    Eat,
    Die,
    Grow,
    Disolve,
    Liquidize,
}

/// A request made on behalf of the cell at `v`: `d` is the way it moves
/// (for a move) and `e` the element it leaves behind (for eating).
#[derive(Clone, Copy, Debug, PartialEq, Eq, Structural)]
pub struct Action {
    pub t: ActionType,
    pub v: Vector2D,
    pub d: Direction,
    pub e: Element,
}

/// The direction that requests which do not move carry.
pub open spec fn still() -> Direction {
    Direction { cardinal: Cardinal::N, distance: 0 }
}

pub open spec fn move_action(v: Vector2D, d: Direction) -> Action {
    Action { t: ActionType::Move, v, d, e: Element::Air }
}

pub open spec fn burn_action(v: Vector2D) -> Action {
    Action { t: ActionType::Burn, v, d: still(), e: Element::Fire }
}

pub open spec fn eat_action(v: Vector2D, e: Element) -> Action {
    Action { t: ActionType::Eat, v, d: still(), e }
}

pub open spec fn die_action(v: Vector2D, e: Element) -> Action {
    Action { t: ActionType::Die, v, d: still(), e }
}

pub open spec fn grow_action(v: Vector2D) -> Action {
    Action { t: ActionType::Grow, v, d: still(), e: Element::Air }
}

pub open spec fn disolve_action(v: Vector2D) -> Action {
    Action { t: ActionType::Disolve, v, d: still(), e: Element::Air }
}

pub open spec fn liquidize_action(v: Vector2D) -> Action {
    Action { t: ActionType::Liquidize, v, d: still(), e: Element::Air }
}

impl Action {
    /// A move of the cell at `v` along `d`.
    pub fn new_move(v: Vector2D, d: Direction) -> (a: Self)
        ensures
            a == move_action(v, d),
    {
        Self { t: ActionType::Move, v, d, e: Element::Air }
    }

    /// The cell at `v` heats, eats or ignites its neighbours.
    pub fn new_burn(v: Vector2D) -> (a: Self)
        ensures
            a == burn_action(v),
    {
        Self { t: ActionType::Burn, v, d: Direction::new(Cardinal::N, 0), e: Element::Fire }
    }

    /// The cell at `v` is eaten and becomes `e`.
    pub fn new_eat(v: Vector2D, e: Element) -> (a: Self)
        ensures
            a == eat_action(v, e),
    {
        Self { t: ActionType::Eat, v, d: Direction::new(Cardinal::N, 0), e }
    }

    /// The cell at `v` dies; the world takes no step for it.
    pub fn new_die(v: Vector2D, e: Element) -> (a: Self)
        ensures
            a == die_action(v, e),
    {
        Self { t: ActionType::Die, v, d: Direction::new(Cardinal::N, 0), e }
    }

    /// The cell at `v` grows into neighbouring water.
    pub fn new_grow(v: Vector2D) -> (a: Self)
        ensures
            a == grow_action(v),
    {
        Self { t: ActionType::Grow, v, d: Direction::new(Cardinal::N, 0), e: Element::Air }
    }

    /// The cell at `v` dissolves in neighbouring water.
    pub fn new_disolve(v: Vector2D) -> (a: Self)
        ensures
            a == disolve_action(v),
    {
        Self { t: ActionType::Disolve, v, d: Direction::new(Cardinal::N, 0), e: Element::Air }
    }

    /// The cell at `v` melts next to fire or smoke.
    pub fn new_liquidize(v: Vector2D) -> (a: Self)
        ensures
            a == liquidize_action(v),
    {
        Self { t: ActionType::Liquidize, v, d: Direction::new(Cardinal::N, 0), e: Element::Air }
    }
}

} // verus!
