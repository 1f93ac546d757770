//! Settings read at start-up: where the world is served and how it is sized.

use vstd::prelude::*;

verus! {

/// The network address the world is served on.
#[derive(Debug)]
pub struct Endpoint {
    pub address: String,
    pub port: String,
}

/// The size of the world and how often it advances.
#[derive(Clone, Copy, Debug)]
pub struct World {
    pub x: u32,
    pub y: u32,
    pub frequency: u32,
}

/// The whole configuration.
#[derive(Debug)]
pub struct Config {
    pub endpoint: Endpoint,
    pub world: World,
}

} // verus!
