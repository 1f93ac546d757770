//! A falling-sand world: a grid of cells, each holding an element, that
//! evolves one frame at a time by the physics of its elements.



pub mod action;
pub mod cell;
pub mod census;
pub mod config;
pub mod direction;
pub mod element;
pub mod grid;
pub mod random;
pub mod reaction;
pub mod simulation;
mod text;




pub use action::{Action, ActionType};
pub use cell::{Cell, CellView};
pub use config::{Config, Endpoint, World};
pub use direction::{Cardinal, Direction};
pub use element::Element;
pub use simulation::{SimView, Simulation};


use vstd::prelude::*;

verus! {

/// A position or a displacement on the grid; `y` grows downwards.
#[derive(Clone, Copy, Debug, PartialEq, Eq, Structural)]
pub struct Vector2D {
    pub x: i32,
    pub y: i32,
}

} // verus!
