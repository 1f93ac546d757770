# falling_sand

A falling-sand world: a grid of cells, each holding an element (sand, water,
fire, acid, ...), that evolves one frame at a time. Every cell asks the world
for actions (move, burn, eat a neighbour, grow, dissolve, melt); the world
carries them out in order, ages each cell, and redraws a byte picture of
itself, three bytes per cell.

Layout:

- `src/` is the verified library (Verus).
  - `element.rs`: the elements, their wire bytes and physical properties.
  - `direction.rs`: compass directions and step counts.
  - `grid.rs`: positions, stepping, neighbours, and the lemmas about them.
  - `action.rs`: the requests a cell makes.
  - `cell.rs`: a cell, its ageing, and the plan of requests it makes each
    frame, with the physics each plan obeys.
  - `reaction.rs`: what one burn step does to a neighbour and to the source.
  - `simulation.rs`: the world, how requests change it, the frame update
    and the relation it keeps (`framed`), and the text picture.
  - `census.rs`: counting cells by element; a frame of air, sand, water and
    stone only rearranges cells.
  - `text.rs`: turning characters into a `String` (trusted, from std).
  - `random.rs`: the draws taken from the `rand` crate; their contracts are
    trusted, not proved.
  - `config.rs`: start-up settings.
- `tests/`: tests of the library on concrete worlds.
- `app/`: the browser bindings, `Display` for cells and the world, and the
  configuration as serde reads it.
