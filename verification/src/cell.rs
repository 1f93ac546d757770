//! A single grid cell: its element, its remaining life and how it behaves
//! each frame.

use vstd::prelude::*;
use crate::{Action, Direction, Element, Simulation, SimView, Vector2D};
use crate::action::{burn_action, disolve_action, eat_action, grow_action, liquidize_action, move_action};
use crate::direction::{Cardinal, step_of};
use crate::element::{density_of, eat_chance_of, is_solid};
use crate::random::{gen_range, gen_ratio, thread_rng};
use crate::grid::{fits, lemma_fits, lemma_fits_between, lemma_neighbours_inside, neighbours, step_from, within_reach};

verus! {

/// One square of the world.
#[derive(Debug, Clone, Copy)]
pub struct Cell {
    element: Element,
    velocity: Vector2D,
    life: Option<u32>,
    variant: u8,
    updated: bool,
}

/// What a cell holds, as contracts speak of it.
pub struct CellView {
    pub element: Element,
    pub velocity: Vector2D,
    pub life: Option<u32>,
    pub variant: u8,
    pub updated: bool,
}

impl View for Cell {
    type V = CellView;

    closed spec fn view(&self) -> CellView {
        CellView {
            element: self.element,
            velocity: self.velocity,
            life: self.life,
            variant: self.variant,
            updated: self.updated,
        }
    }
}

/// The range a new cell's life is drawn from, for the elements that burn
/// out, rot or wear away; `None` for elements that last.
pub open spec fn life_range(e: Element) -> Option<(u32, u32)> {
    match e {
        Element::Wood => Some((150u32, 300u32)),
        Element::Coal => Some((500u32, 650u32)),
        Element::Fire => Some((5u32, 5u32)),
        Element::Smoke => Some((20u32, 20u32)),
        Element::Acid => Some((200u32, 2000u32)),
        _ => None,
    }
}

/// A life that a new cell of element `e` can start with.
pub open spec fn life_fits(e: Element, life: Option<u32>) -> bool {
    match life_range(e) {
        None => life is None,
        Some(r) => life matches Some(l) && r.0 <= l <= r.1,
    }
}

/// The zero vector.
pub open spec fn zero() -> Vector2D {
    Vector2D { x: 0, y: 0 }
}

/// `c` is a cell of element `e` as it is made: at rest, not yet updated,
/// with a life drawn from the element's range. Its variant, a shade used
/// only for drawing, is any byte.
pub open spec fn is_fresh(c: CellView, e: Element) -> bool {
    &&& c.element == e
    &&& c.velocity == zero()
    &&& !c.updated
    &&& life_fits(e, c.life)
}

/// The elements whose life counts down each frame.
pub open spec fn burns_down(e: Element) -> bool {
    match e {
        Element::Fire | Element::Smoke | Element::Ember | Element::Acid => true,
        _ => false,
    }
}

/// A cell that `decay` can be called on: a counting-down life is not zero.
pub open spec fn can_decay(c: CellView) -> bool {
    !(burns_down(c.element) && c.life == Some(0u32))
}

impl Cell {
    /// This cell marked as changed in this frame.
    pub closed spec fn marked(self) -> Cell {
        Cell { updated: true, ..self }
    }

    /// This cell with its mark of change cleared.
    pub closed spec fn cleared(self) -> Cell {
        Cell { updated: false, ..self }
    }

    /// This cell turned into another element, all else kept.
    pub closed spec fn with_element(self, element: Element) -> Cell {
        Cell { element, ..self }
    }
}

pub broadcast proof fn lemma_marked_view(c: Cell)
    ensures
        (#[trigger] c.marked())@ == (CellView { updated: true, ..c@ }),
{
}

pub broadcast proof fn lemma_cleared_view(c: Cell)
    ensures
        (#[trigger] c.cleared())@ == (CellView { updated: false, ..c@ }),
{
}

pub broadcast proof fn lemma_with_element_view(c: Cell, e: Element)
    ensures
        (#[trigger] c.with_element(e))@ == (CellView { element: e, ..c@ }),
{
}

pub broadcast proof fn lemma_marked_twice(c: Cell)
    ensures
        #[trigger] c.marked().marked() == c.marked(),
{
}

/// Two cells that hold the same are the same cell.
pub proof fn lemma_view_injective(a: Cell, b: Cell)
    requires
        a@ == b@,
    ensures
        a == b,
{
}

pub broadcast group group_cell_views {
    lemma_marked_view,
    lemma_marked_twice,
    lemma_cleared_view,
    lemma_with_element_view,
}

/// `after` is `before` after one frame of ageing: a cell without a life is
/// untouched; fire, smoke, embers and acid lose one unit of life, other
/// lives stay; a cell whose life was one is replaced by a new cell of air,
/// or, for an ember, of air or cinder, marked as changed.
pub open spec fn decayed(before: Cell, after: Cell) -> bool {
    match before@.life {
        None => after == before,
        Some(l) => if l == 1 {
            &&& (after@.element == Element::Air || (before@.element == Element::Ember
                && after@.element == Element::Cinder))
            &&& is_fresh(CellView { updated: false, ..after@ }, after@.element)
            &&& after@.updated
        } else {
            after@ == (CellView {
                life: Some(if burns_down(before@.element) { (l - 1) as u32 } else { l }),
                ..before@
            })
        },
    }
}

/// The elements whose frame draws no chance.
pub open spec fn draws_nothing(e: Element) -> bool {
    match e {
        Element::Air | Element::Sand | Element::Salt | Element::CanonPowder | Element::Cinder
        | Element::Ember | Element::Moss | Element::Ice | Element::Wood | Element::Coal
        | Element::Stone => true,
        _ => false,
    }
}

/// Air, powders, salt, embers, moss, ice, wood, coal and stone draw
/// nothing: the plan of such a cell does not depend on the random choices.
pub proof fn lemma_plan_ignores_choices(
    cell: CellView,
    origin: Vector2D,
    sim: SimView,
    first1: bool,
    roll1: u32,
    gas1: Direction,
    picks1: Seq<bool>,
    first2: bool,
    roll2: u32,
    gas2: Direction,
    picks2: Seq<bool>,
)
    requires
        draws_nothing(cell.element),
    ensures
        plan(cell, origin, sim, first1, roll1, gas1, picks1) == plan(
            cell,
            origin,
            sim,
            first2,
            roll2,
            gas2,
            picks2,
        ),
{
}

impl Cell {
    /// A new cell of the given element, with a random shade and a life
    /// drawn from the element's range.
    pub fn new(element: Element) -> (c: Self)
        ensures
            is_fresh(c@, element),
    {
        let mut rng = thread_rng();
        let variant = gen_range(&mut rng, 0, 255) as u8;
        let velocity = Vector2D { x: 0, y: 0 };
        let life = match element {
            Element::Wood => Some(gen_range(&mut rng, 150, 300)),
            Element::Coal => Some(gen_range(&mut rng, 500, 650)),
            Element::Fire => Some(5),
            Element::Smoke => Some(20),
            Element::Acid => Some(gen_range(&mut rng, 200, 2000)),
            _ => None,
        };
        Self { element, velocity, life, variant, updated: false }
    }

    pub fn element(&self) -> (e: Element)
        ensures
            e == self@.element,
    {
        self.element
    }

    pub fn variant(&self) -> (v: u8)
        ensures
            v == self@.variant,
    {
        self.variant
    }

    /// Marks the cell as changed in this frame.
    pub fn set_update(&mut self)
        ensures
            *final(self) == old(self).marked(),
            final(self)@ == (CellView { updated: true, ..old(self)@ }),
    {
        self.updated = true;
    }

    /// Clears the mark of change.
    pub fn reset_update(&mut self)
        ensures
            *final(self) == old(self).cleared(),
            final(self)@ == (CellView { updated: false, ..old(self)@ }),
    {
        self.updated = false;
    }

    pub fn updated(&self) -> (u: bool)
        ensures
            u == self@.updated,
    {
        self.updated
    }

    /// One frame of ageing. Fire, smoke, embers and acid lose one unit of
    /// life; any cell whose life was down to one is replaced by a new cell
    /// of air, or, for an ember, of air or cinder, marked as changed.
    pub fn decay(&mut self)
        requires
            can_decay(old(self)@),
        ensures
            decayed(*old(self), *final(self)),
    {
        let mut transform = Element::Air;
        match self.life {
            Some(life) => {
                match self.element {
                    Element::Fire => {
                        self.life = Some(life - 1);
                    },
                    Element::Smoke => {
                        self.life = Some(life - 1);
                    },
                    Element::Ember => {
                        self.life = Some(life - 1);
                        let mut rng = thread_rng();
                        if gen_ratio(&mut rng, 1, 2) {
                            transform = Element::Cinder;
                        }
                    },
                    Element::Acid => {
                        self.life = Some(life - 1);
                    },
                    _ => {},
                }
                if life == 1 {
                    *self = Cell::new(transform);
                    self.set_update();
                }
            },
            None => {},
        }
    }

    pub fn get_velocity(&self) -> (v: Vector2D)
        ensures
            v == self@.velocity,
    {
        self.velocity
    }

    pub fn set_velocity(&mut self, velocity: Vector2D)
        ensures
            final(self)@ == (CellView { velocity, ..old(self)@ }),
    {
        self.velocity = velocity;
    }

    pub fn get_element(&self) -> (e: Element)
        ensures
            e == self@.element,
    {
        self.element
    }

    pub fn set_element(&mut self, element: Element)
        ensures
            *final(self) == old(self).with_element(element),
            final(self)@ == (CellView { element, ..old(self)@ }),
    {
        self.element = element;
    }

    pub fn get_life(&self) -> (l: Option<u32>)
        ensures
            l == self@.life,
    {
        self.life
    }

    pub fn set_life(&mut self, life: Option<u32>)
        ensures
            final(self)@ == (CellView { life, ..old(self)@ }),
    {
        self.life = life;
    }
}


/// A cell of element `elem` may step along `c` into a cell of element
/// `found`: gas spreads into air; otherwise heavier matter sinks, lighter
/// matter rises, and sideways a cell pushes aside what is no heavier.
pub open spec fn can_enter(elem: Element, found: Element, c: Cardinal) -> bool {
    ||| elem == Element::Gas && found == Element::Air
    ||| step_of(c).1 == 1 && density_of(elem) > density_of(found)
    ||| step_of(c).1 == -1 && density_of(elem) < density_of(found)
    ||| step_of(c).1 == 0 && density_of(elem) >= density_of(found)
}

/// The farthest move found by walking from `from` along `c`, from step `i`
/// up to step `dist`, given the move `found` so far. Steps off the grid are
/// passed over; solid matter or matter of the walker's own element ends the
/// walk, as does a step the walker may not enter.
pub open spec fn scan(
    elem: Element,
    from: Vector2D,
    c: Cardinal,
    i: int,
    dist: int,
    sim: SimView,
    found: Option<Action>,
) -> Option<Action>
    decreases dist + 1 - i,
{
    if i < 1 || i > dist {
        found
    } else {
        let p = step_from(from, c, i);
        if !sim.in_bounds(p) {
            scan(elem, from, c, i + 1, dist, sim, found)
        } else {
            let there = sim.element_at(p);
            if is_solid(there) || there == elem {
                found
            } else if can_enter(elem, there, c) {
                scan(
                    elem,
                    from,
                    c,
                    i + 1,
                    dist,
                    sim,
                    Some(move_action(from, Direction { cardinal: c, distance: i as u32 })),
                )
            } else {
                found
            }
        }
    }
}

/// The move a cell of element `elem` at `from` makes along `to`: as far as
/// it can go, up to `to.distance` steps, or none.
pub open spec fn move_result(elem: Element, from: Vector2D, to: Direction, sim: SimView) -> Option<
    Action,
> {
    scan(elem, from, to.cardinal, 1, to.distance as int, sim, None)
}

/// The first of the directions, in order, along which a move is possible.
pub open spec fn first_move(elem: Element, from: Vector2D, dirs: Seq<Direction>, sim: SimView) -> Option<
    Action,
>
    decreases dirs.len(),
{
    if dirs.len() == 0 {
        None
    } else {
        match move_result(elem, from, dirs[0], sim) {
            Some(a) => Some(a),
            None => first_move(elem, from, dirs.drop_first(), sim),
        }
    }
}

/// The action, if any, as a sequence of none or one.
pub open spec fn opt(o: Option<Action>) -> Seq<Action> {
    match o {
        Some(a) => seq![a],
        None => seq![],
    }
}

/// How a liquid tries to flow: down, then the two lower diagonals, then
/// sideways, trying the side `first` picks before the other.
pub open spec fn flowing(first: bool, d: u32) -> Seq<Direction> {
    seq![
        Direction { cardinal: Cardinal::S, distance: d },
        Direction { cardinal: if first { Cardinal::SE } else { Cardinal::SW }, distance: d },
        Direction { cardinal: if first { Cardinal::SW } else { Cardinal::SE }, distance: d },
        Direction { cardinal: if first { Cardinal::E } else { Cardinal::W }, distance: d },
        Direction { cardinal: if first { Cardinal::W } else { Cardinal::E }, distance: d },
    ]
}

/// How a powder tries to fall: down, then down-left, then down-right.
pub open spec fn falling() -> Seq<Direction> {
    seq![
        Direction { cardinal: Cardinal::S, distance: 2 },
        Direction { cardinal: Cardinal::SW, distance: 2 },
        Direction { cardinal: Cardinal::SE, distance: 2 },
    ]
}

/// The way a flame flickers for a roll of `0..12`: east or west one time
/// in twelve each, up a diagonal two times in twelve each, else straight up.
pub open spec fn flicker(roll: u32) -> Cardinal {
    if roll == 0 {
        Cardinal::E
    } else if roll == 1 {
        Cardinal::W
    } else if roll <= 3 {
        Cardinal::NE
    } else if roll <= 5 {
        Cardinal::NW
    } else {
        Cardinal::N
    }
}

/// Acid can eat the cell at `p`: anything but air and acid.
pub open spec fn edible(sim: SimView, p: Vector2D) -> bool {
    sim.element_at(p) != Element::Air && sim.element_at(p) != Element::Acid
}

/// The bites taken among the first `k` neighbours `ns`: the edible ones
/// that `picks` selects, each left as air.
pub open spec fn bites_upto(sim: SimView, ns: Seq<Vector2D>, picks: Seq<bool>, k: int) -> Seq<Action>
    decreases k,
{
    if k <= 0 {
        seq![]
    } else {
        bites_upto(sim, ns, picks, k - 1) + if edible(sim, ns[k - 1]) && picks[k - 1] {
            seq![eat_action(ns[k - 1], Element::Air)]
        } else {
            seq![]
        }
    }
}

/// The bites acid at `origin` takes of its neighbours.
pub open spec fn bites(origin: Vector2D, sim: SimView, picks: Seq<bool>) -> Seq<Action> {
    let ns = neighbours(sim.width, sim.height, origin);
    bites_upto(sim, ns, picks, ns.len() as int)
}

/// Oil lets off vapour that may catch: a burn of the air just above it.
pub open spec fn vapour(origin: Vector2D, sim: SimView) -> Seq<Action> {
    let above = step_from(origin, Cardinal::N, 1);
    if sim.in_bounds(above) && sim.element_at(above) == Element::Air {
        seq![burn_action(above)]
    } else {
        seq![]
    }
}

/// What a cell at `origin` asks of the world in one frame, given its random
/// choices: `first`, the side a liquid or smoke tries first; `roll`, a flame's
/// flicker; `gas`, the way gas drifts; `picks`, which neighbours acid bites.
pub open spec fn plan(
    cell: CellView,
    origin: Vector2D,
    sim: SimView,
    first: bool,
    roll: u32,
    gas: Direction,
    picks: Seq<bool>,
) -> Seq<Action> {
    let e = cell.element;
    match e {
        Element::Water => opt(first_move(e, origin, flowing(first, 3), sim)),
        Element::Acid => opt(first_move(e, origin, flowing(first, 1), sim)) + bites(
            origin,
            sim,
            picks,
        ) + seq![burn_action(origin)],
        Element::Lava => seq![burn_action(origin)] + opt(
            first_move(e, origin, flowing(first, 1), sim),
        ),
        Element::Oil => vapour(origin, sim) + opt(first_move(e, origin, flowing(first, 1), sim)),
        Element::Sand | Element::CanonPowder | Element::Cinder => opt(
            first_move(e, origin, falling(), sim),
        ),
        Element::Salt => opt(first_move(e, origin, falling(), sim)) + seq![disolve_action(origin)],
        Element::Fire => seq![burn_action(origin)] + opt(
            move_result(e, origin, Direction { cardinal: flicker(roll), distance: 1 }, sim),
        ),
        Element::Smoke => opt(
            move_result(e, origin, Direction { cardinal: Cardinal::N, distance: 1 }, sim),
        ) + if first {
            opt(move_result(e, origin, Direction { cardinal: Cardinal::NE, distance: 1 }, sim))
                + opt(move_result(e, origin, Direction { cardinal: Cardinal::E, distance: 1 }, sim))
        } else {
            opt(move_result(e, origin, Direction { cardinal: Cardinal::NW, distance: 1 }, sim))
                + opt(move_result(e, origin, Direction { cardinal: Cardinal::W, distance: 1 }, sim))
        },
        Element::Ember => seq![burn_action(origin)],
        Element::Moss => seq![grow_action(origin)],
        Element::Ice => seq![liquidize_action(origin)],
        Element::Gas => opt(move_result(e, origin, gas, sim)),
        _ => seq![],
    }
}

/// How many steps from its position a cell of element `e` looks in one
/// frame: water flows three; powders fall and gas drifts two; the other
/// moving elements, and acid's bites, look one; still elements look none.
pub open spec fn reach_of(e: Element) -> int {
    match e {
        Element::Water => 3,
        Element::Sand | Element::Salt | Element::CanonPowder | Element::Cinder | Element::Gas => 2,
        Element::Acid | Element::Lava | Element::Oil | Element::Fire | Element::Smoke => 1,
        _ => 0,
    }
}

/// The random choices a frame can make for a cell: a flicker roll below
/// twelve, a gas drift of one or two steps, and, for acid, one pick per
/// neighbour that bites only edible cells and always bites where the bite
/// is certain.
pub open spec fn admissible(
    cell: CellView,
    origin: Vector2D,
    sim: SimView,
    roll: u32,
    gas: Direction,
    picks: Seq<bool>,
) -> bool {
    let ns = neighbours(sim.width, sim.height, origin);
    &&& roll < 12
    &&& 1 <= gas.distance <= 2
    &&& cell.element == Element::Acid ==> {
        &&& picks.len() == ns.len()
        &&& forall|k: int|
            0 <= k < ns.len() ==> {
                &&& !edible(sim, ns[k]) ==> !picks[k]
                &&& edible(sim, ns[k]) && eat_chance_of(sim.element_at(ns[k])).0 == eat_chance_of(
                    sim.element_at(ns[k]),
                ).1 ==> #[trigger] picks[k]
            }
    }
}


/// The directions a liquid tries, in order.
fn flow_directions(first: bool, d: u32) -> (v: Vec<Direction>)
    ensures
        v@ == flowing(first, d),
{
    let v = vec![
        Direction::new(Cardinal::S, d),
        Direction::new(if first { Cardinal::SE } else { Cardinal::SW }, d),
        Direction::new(if first { Cardinal::SW } else { Cardinal::SE }, d),
        Direction::new(if first { Cardinal::E } else { Cardinal::W }, d),
        Direction::new(if first { Cardinal::W } else { Cardinal::E }, d),
    ];
    assert(v@ =~= flowing(first, d));
    v
}

/// The directions a powder tries, in order.
fn fall_directions() -> (v: Vec<Direction>)
    ensures
        v@ == falling(),
{
    let v = vec![
        Direction::new(Cardinal::S, 2),
        Direction::new(Cardinal::SW, 2),
        Direction::new(Cardinal::SE, 2),
    ];
    assert(v@ =~= falling());
    v
}

/// The way a flame flickers for a roll.
fn flicker_of(roll: u32) -> (c: Cardinal)
    ensures
        c == flicker(roll),
{
    if roll == 0 {
        Cardinal::E
    } else if roll == 1 {
        Cardinal::W
    } else if roll <= 3 {
        Cardinal::NE
    } else if roll <= 5 {
        Cardinal::NW
    } else {
        Cardinal::N
    }
}

/// Appends the action, if any.
fn push_opt(v: &mut Vec<Action>, o: Option<Action>)
    ensures
        final(v)@ == old(v)@ + opt(o),
{
    match o {
        Some(a) => {
            v.push(a);
            assert(final(v)@ =~= old(v)@ + opt(o));
        },
        None => {
            assert(old(v)@ + opt(o) =~= old(v)@);
        },
    }
}

impl Cell {
    /// The move this cell, at `from`, makes along `to`: the farthest step,
    /// up to `to.distance`, that it can reach.
    fn move_to(&self, from: Vector2D, to: Direction, simulation: &Simulation) -> (r: Option<Action>)
        requires
            simulation@.wf(),
            fits(from, to.cardinal, to.distance as int),
        ensures
            r == move_result(self@.element, from, to, simulation@),
            r matches Some(a) ==> lands(self@.element, from, simulation@, a) && a.d.cardinal
                == to.cardinal && a.d.distance <= to.distance,
    {
        proof {
            lemma_scan_lands(self@.element, from, to.cardinal, 1, to.distance as int, simulation@, None);
        }
        let ghost to0 = to;
        let distance = to.distance;
        let mut step = to;
        let mut destination: Option<Action> = None;
        let mut i: u32 = 1;
        while i <= distance
            invariant
                1 <= i <= distance + 1,
                distance == to0.distance,
                to0 == to,
                step.cardinal == to0.cardinal,
                fits(from, to0.cardinal, distance as int),
                move_result(self@.element, from, to0, simulation@) matches Some(a) ==> lands(
                    self@.element,
                    from,
                    simulation@,
                    a,
                ) && a.d.cardinal == to0.cardinal && a.d.distance <= to0.distance,
                simulation@.wf(),
                scan(self@.element, from, to0.cardinal, i as int, distance as int, simulation@, destination)
                    == move_result(self@.element, from, to0, simulation@),
            decreases distance + 1 - i,
        {
            step.set_distance(i);
            proof {
                lemma_fits_between(from, step.cardinal, distance as int, i as int);
            }
            let destintion = simulation.at(&from, step);
            if !simulation.in_bounds(&destintion) {
                i = i + 1;
                continue ;
            }
            let cell = simulation.check_cell(destintion);
            if cell.solid() {
                return destination;
            }
            if cell == self.element {
                return destination;
            }
            if self.element == Element::Gas && cell == Element::Air {
                destination = Some(Action::new_move(from, step));
                i = i + 1;
                continue ;
            }
            let factor = step.factor();
            if factor.y == 1 && self.element.density() > cell.density() {
                destination = Some(Action::new_move(from, step));
                i = i + 1;
                continue ;
            } else if factor.y == -1 && self.element.density() < cell.density() {
                destination = Some(Action::new_move(from, step));
                i = i + 1;
                continue ;
            } else if factor.y == 0 && self.element.density() >= cell.density() {
                destination = Some(Action::new_move(from, step));
                i = i + 1;
                continue ;
            }
            return destination;
        }
        destination
    }

    /// The first move this cell, at `from`, can make among `dirs`.
    fn try_moves(&self, from: Vector2D, dirs: &Vec<Direction>, simulation: &Simulation) -> (r: Option<
        Action,
    >)
        requires
            simulation@.wf(),
            forall|k: int|
                0 <= k < dirs@.len() ==> fits(from, (#[trigger] dirs@[k]).cardinal, dirs@[k].distance as int),
        ensures
            r == first_move(self@.element, from, dirs@, simulation@),
    {
        let mut k: usize = 0;
        assert(dirs@.skip(0) =~= dirs@);
        while k < dirs.len()
            invariant
                0 <= k <= dirs@.len(),
                simulation@.wf(),
                forall|j: int|
                    0 <= j < dirs@.len() ==> fits(from, (#[trigger] dirs@[j]).cardinal, dirs@[j].distance as int),
                first_move(self@.element, from, dirs@.skip(k as int), simulation@) == first_move(
                    self@.element,
                    from,
                    dirs@,
                    simulation@,
                ),
            decreases dirs@.len() - k,
        {
            proof {
                assert(dirs@.skip(k as int).drop_first() =~= dirs@.skip(k + 1));
                assert(dirs@.skip(k as int)[0] == dirs@[k as int]);
            }
            match self.move_to(from, dirs[k], simulation) {
                Some(a) => {
                    return Some(a);
                },
                None => {},
            }
            k = k + 1;
        }
        proof {
            assert(dirs@.skip(k as int).len() == 0);
        }
        None
    }

    /// The bites acid at `from` takes: one eating per edible neighbour that
    /// `picks` selects, leaving air, in compass order.
    fn eat_neighbour(&self, from: Vector2D, simulation: &Simulation, picks: &Vec<bool>) -> (r: Vec<
        Action,
    >)
        requires
            simulation@.wf(),
            within_reach(from, 1),
            picks@.len() == neighbours(simulation@.width, simulation@.height, from).len(),
        ensures
            r@ == bites(from, simulation@, picks@),
    {
        let ns = simulation.get_neighbours(&from);
        proof {
            lemma_neighbours_inside(simulation@.width, simulation@.height, from, 8);
        }
        let mut actions: Vec<Action> = Vec::new();
        let mut k: usize = 0;
        while k < ns.len()
            invariant
                0 <= k <= ns@.len(),
                ns@ == neighbours(simulation@.width, simulation@.height, from),
                picks@.len() == ns@.len(),
                simulation@.wf(),
                forall|i: int| 0 <= i < ns@.len() ==> simulation@.in_bounds(#[trigger] ns@[i]),
                actions@ == bites_upto(simulation@, ns@, picks@, k as int),
            decreases ns@.len() - k,
        {
            let at = ns[k];
            let here = simulation.check_cell(at);
            if here != Element::Air && here != Element::Acid && picks[k] {
                actions.push(Action::new_eat(at, Element::Air));
            }
            proof {
                let prev = bites_upto(simulation@, ns@, picks@, k as int);
                assert(bites_upto(simulation@, ns@, picks@, k + 1) == prev + if edible(simulation@, ns@[k as int]) && picks@[k as int] {
                    seq![eat_action(ns@[k as int], Element::Air)]
                } else {
                    seq![]
                });
                assert(actions@ =~= bites_upto(simulation@, ns@, picks@, k + 1));
            }
            k = k + 1;
        }
        actions
    }

    /// What this cell, at `origin`, asks of the world in one frame, given
    /// its random choices (see `plan`).
    pub fn update_with(
        &self,
        origin: Vector2D,
        sim: &Simulation,
        first: bool,
        roll: u32,
        gas: Direction,
        picks: &Vec<bool>,
    ) -> (actions: Vec<Action>)
        requires
            sim@.wf(),
            within_reach(origin, reach_of(self@.element)),
            self@.element == Element::Gas ==> gas.distance <= 2,
            self@.element == Element::Acid ==> picks@.len() == neighbours(
                sim@.width,
                sim@.height,
                origin,
            ).len(),
        ensures
            actions@ == plan(self@, origin, sim@, first, roll, gas, picks@),
    {
        proof {
            assert forall|c: Cardinal, d: int| 0 <= d <= reach_of(self@.element) implies #[trigger] fits(
                origin,
                c,
                d,
            ) by {
                lemma_fits(origin, c, d, reach_of(self@.element));
            }
        }
        let mut actions: Vec<Action> = Vec::new();
        let e = self.element;
        match e {
            Element::Air => {},
            Element::Water => {
                let dirs = flow_directions(first, 3);
                push_opt(&mut actions, self.try_moves(origin, &dirs, sim));
                assert(actions@ =~= plan(self@, origin, sim@, first, roll, gas, picks@));
            },
            Element::Acid => {
                let dirs = flow_directions(first, 1);
                push_opt(&mut actions, self.try_moves(origin, &dirs, sim));
                let mut eaten = self.eat_neighbour(origin, sim, picks);
                actions.append(&mut eaten);
                actions.push(Action::new_burn(origin));
                assert(actions@ =~= plan(self@, origin, sim@, first, roll, gas, picks@));
            },
            Element::Lava => {
                actions.push(Action::new_burn(origin));
                let dirs = flow_directions(first, 1);
                push_opt(&mut actions, self.try_moves(origin, &dirs, sim));
                assert(actions@ =~= plan(self@, origin, sim@, first, roll, gas, picks@));
            },
            Element::Oil => {
                let destintion = sim.at(&origin, Direction::new(Cardinal::N, 1));
                if sim.in_bounds(&destintion) {
                    if sim.check_cell(destintion) == Element::Air {
                        actions.push(Action::new_burn(destintion));
                    }
                }
                let dirs = flow_directions(first, 1);
                push_opt(&mut actions, self.try_moves(origin, &dirs, sim));
                assert(actions@ =~= plan(self@, origin, sim@, first, roll, gas, picks@));
            },
            Element::Sand | Element::CanonPowder | Element::Cinder => {
                let dirs = fall_directions();
                push_opt(&mut actions, self.try_moves(origin, &dirs, sim));
                assert(actions@ =~= plan(self@, origin, sim@, first, roll, gas, picks@));
            },
            Element::Salt => {
                let dirs = fall_directions();
                push_opt(&mut actions, self.try_moves(origin, &dirs, sim));
                actions.push(Action::new_disolve(origin));
                assert(actions@ =~= plan(self@, origin, sim@, first, roll, gas, picks@));
            },
            Element::Fire => {
                actions.push(Action::new_burn(origin));
                let c = flicker_of(roll);
                push_opt(&mut actions, self.move_to(origin, Direction::new(c, 1), sim));
                assert(actions@ =~= plan(self@, origin, sim@, first, roll, gas, picks@));
            },
            Element::Smoke => {
                push_opt(&mut actions, self.move_to(origin, Direction::new(Cardinal::N, 1), sim));
                if first {
                    push_opt(
                        &mut actions,
                        self.move_to(origin, Direction::new(Cardinal::NE, 1), sim),
                    );
                    push_opt(&mut actions, self.move_to(origin, Direction::new(Cardinal::E, 1), sim));
                } else {
                    push_opt(
                        &mut actions,
                        self.move_to(origin, Direction::new(Cardinal::NW, 1), sim),
                    );
                    push_opt(&mut actions, self.move_to(origin, Direction::new(Cardinal::W, 1), sim));
                }
                assert(actions@ =~= plan(self@, origin, sim@, first, roll, gas, picks@));
            },
            Element::Ember => {
                actions.push(Action::new_burn(origin));
                assert(actions@ =~= plan(self@, origin, sim@, first, roll, gas, picks@));
            },
            Element::Moss => {
                actions.push(Action::new_grow(origin));
                assert(actions@ =~= plan(self@, origin, sim@, first, roll, gas, picks@));
            },
            Element::Ice => {
                actions.push(Action::new_liquidize(origin));
                assert(actions@ =~= plan(self@, origin, sim@, first, roll, gas, picks@));
            },
            Element::Gas => {
                push_opt(&mut actions, self.move_to(origin, gas, sim));
                assert(actions@ =~= plan(self@, origin, sim@, first, roll, gas, picks@));
            },
            _ => {},
        }
        actions
    }

    /// Draws, for each neighbour of `from`, whether acid bites it: never for
    /// air or acid, otherwise with the neighbour's eat chance.
    fn draw_bites(&self, from: Vector2D, sim: &Simulation) -> (picks: Vec<bool>)
        requires
            sim@.wf(),
            within_reach(from, 1),
        ensures
            ({
                let ns = neighbours(sim@.width, sim@.height, from);
                &&& picks@.len() == ns.len()
                &&& forall|k: int|
                    0 <= k < ns.len() ==> {
                        &&& !edible(sim@, ns[k]) ==> !picks@[k]
                        &&& edible(sim@, ns[k]) && eat_chance_of(sim@.element_at(ns[k])).0
                            == eat_chance_of(sim@.element_at(ns[k])).1 ==> #[trigger] picks@[k]
                    }
            }),
    {
        let ns = sim.get_neighbours(&from);
        proof {
            lemma_neighbours_inside(sim@.width, sim@.height, from, 8);
        }
        let mut rng = thread_rng();
        let mut picks: Vec<bool> = Vec::new();
        let mut k: usize = 0;
        while k < ns.len()
            invariant
                0 <= k <= ns@.len(),
                ns@ == neighbours(sim@.width, sim@.height, from),
                sim@.wf(),
                forall|i: int| 0 <= i < ns@.len() ==> sim@.in_bounds(#[trigger] ns@[i]),
                picks@.len() == k,
                forall|j: int|
                    0 <= j < k ==> {
                        &&& !edible(sim@, ns@[j]) ==> !picks@[j]
                        &&& edible(sim@, ns@[j]) && eat_chance_of(sim@.element_at(ns@[j])).0
                            == eat_chance_of(sim@.element_at(ns@[j])).1 ==> #[trigger] picks@[j]
                    },
            decreases ns@.len() - k,
        {
            let here = sim.check_cell(ns[k]);
            if here == Element::Air || here == Element::Acid {
                picks.push(false);
            } else {
                let (n, d) = here.eat_chance();
                let bite = gen_ratio(&mut rng, n, d);
                picks.push(bite);
            }
            k = k + 1;
        }
        picks
    }

    /// What this cell, at `origin`, asks of the world in one frame. The
    /// random choices are drawn here; the result is the plan for some
    /// admissible choice.
    pub fn update(&self, origin: Vector2D, sim: &Simulation) -> (actions: Vec<Action>)
        requires
            sim@.wf(),
            within_reach(origin, reach_of(self@.element)),
        ensures
            exists|first: bool, roll: u32, gas: Direction, picks: Seq<bool>|
                admissible(self@, origin, sim@, roll, gas, picks) && actions@ == #[trigger] plan(
                    self@,
                    origin,
                    sim@,
                    first,
                    roll,
                    gas,
                    picks,
                ),
    {
        let mut rng = thread_rng();
        let e = self.element;
        let first = match e {
            Element::Water | Element::Acid | Element::Lava | Element::Oil | Element::Smoke => gen_ratio(
                &mut rng,
                1,
                2,
            ),
            _ => false,
        };
        let roll = match e {
            Element::Fire => gen_range(&mut rng, 0, 11),
            _ => 0,
        };
        let gas = match e {
            Element::Gas => {
                let distance = gen_range(&mut rng, 1, 2);
                Direction::new_rng(distance)
            },
            _ => Direction::new(Cardinal::N, 1),
        };
        let picks = match e {
            Element::Acid => self.draw_bites(origin, sim),
            _ => Vec::new(),
        };
        let actions = self.update_with(origin, sim, first, roll, gas, &picks);
        assert(admissible(self@, origin, sim@, roll, gas, picks@));
        actions
    }
}


/// The way an element may head: powders only fall (straight or slanting);
/// liquids never rise; fire and smoke never sink; gas goes anywhere.
pub open spec fn heading(e: Element, c: Cardinal) -> bool {
    match e {
        Element::Sand | Element::Salt | Element::CanonPowder | Element::Cinder => step_of(c).1 == 1,
        Element::Water | Element::Acid | Element::Lava | Element::Oil => step_of(c).1 >= 0,
        Element::Fire | Element::Smoke => step_of(c).1 <= 0,
        _ => true,
    }
}

/// A move of the cell at `from`, of element `elem`, that lands on the grid
/// on a cell it may enter: one that is neither solid nor of its own element.
pub open spec fn lands(elem: Element, from: Vector2D, sim: SimView, a: Action) -> bool {
    let dest = step_from(from, a.d.cardinal, a.d.distance as int);
    &&& a.t == crate::action::ActionType::Move
    &&& a.v == from
    &&& a.d.distance >= 1
    &&& sim.in_bounds(dest)
    &&& !is_solid(sim.element_at(dest))
    &&& sim.element_at(dest) != elem
    &&& can_enter(elem, sim.element_at(dest), a.d.cardinal)
}

/// Every move in `actions` is a move of `from` that lands and heads the way
/// its element may.
pub open spec fn moves_sound(elem: Element, from: Vector2D, sim: SimView, actions: Seq<Action>) -> bool {
    forall|i: int|
        0 <= i < actions.len() && (#[trigger] actions[i]).t == crate::action::ActionType::Move ==> lands(
            elem,
            from,
            sim,
            actions[i],
        ) && heading(elem, actions[i].d.cardinal)
}

/// A walk's move, if any, lands on a cell that its walker may enter, along
/// the walk's cardinal and no farther than the walk's length.
pub proof fn lemma_scan_lands(
    elem: Element,
    from: Vector2D,
    c: Cardinal,
    i: int,
    dist: int,
    sim: SimView,
    found: Option<Action>,
)
    requires
        1 <= i,
        fits(from, c, dist),
        found matches Some(a) ==> lands(elem, from, sim, a) && a.d.cardinal == c && a.d.distance
            <= dist,
    ensures
        scan(elem, from, c, i, dist, sim, found) matches Some(a) ==> lands(elem, from, sim, a)
            && a.d.cardinal == c && a.d.distance <= dist,
    decreases dist + 1 - i,
{
    if i <= dist {
        lemma_fits_between(from, c, dist, i);
        lemma_scan_lands(elem, from, c, i + 1, dist, sim, found);
        let p = step_from(from, c, i);
        if sim.in_bounds(p) && !is_solid(sim.element_at(p)) && sim.element_at(p) != elem
            && can_enter(elem, sim.element_at(p), c) {
            lemma_scan_lands(
                elem,
                from,
                c,
                i + 1,
                dist,
                sim,
                Some(move_action(from, Direction { cardinal: c, distance: i as u32 })),
            );
        }
    }
}

proof fn lemma_first_move_lands(elem: Element, from: Vector2D, dirs: Seq<Direction>, sim: SimView)
    requires
        forall|k: int|
            0 <= k < dirs.len() ==> fits(from, (#[trigger] dirs[k]).cardinal, dirs[k].distance as int)
                && heading(elem, dirs[k].cardinal),
    ensures
        moves_sound(elem, from, sim, opt(first_move(elem, from, dirs, sim))),
    decreases dirs.len(),
{
    if dirs.len() > 0 {
        lemma_scan_lands(elem, from, dirs[0].cardinal, 1, dirs[0].distance as int, sim, None);
        let rest = dirs.drop_first();
        assert forall|k: int| 0 <= k < rest.len() implies fits(from, (#[trigger] rest[k]).cardinal, rest[k].distance as int)
            && heading(elem, rest[k].cardinal) by {
            assert(rest[k] == dirs[k + 1]);
        }
        lemma_first_move_lands(elem, from, rest, sim);
    }
}

proof fn lemma_step_lands(elem: Element, from: Vector2D, c: Cardinal, sim: SimView)
    requires
        fits(from, c, 1),
        heading(elem, c),
    ensures
        moves_sound(elem, from, sim, opt(move_result(elem, from, Direction { cardinal: c, distance: 1 }, sim))),
{
    lemma_scan_lands(elem, from, c, 1, 1, sim, None);
}

/// Every move a cell plans lands on a cell it may enter, and heads the way
/// its element may: powders fall, liquids never rise, fire and smoke never
/// sink.
pub proof fn lemma_moves_follow_physics(
    cell: CellView,
    origin: Vector2D,
    sim: SimView,
    first: bool,
    roll: u32,
    gas: Direction,
    picks: Seq<bool>,
)
    requires
        within_reach(origin, reach_of(cell.element)),
        cell.element == Element::Gas ==> gas.distance <= 2,
    ensures
        moves_sound(cell.element, origin, sim, plan(cell, origin, sim, first, roll, gas, picks)),
{
    let e = cell.element;
    assert forall|c: Cardinal, d: int| 0 <= d <= reach_of(e) implies #[trigger] fits(origin, c, d) by {
        lemma_fits(origin, c, d, reach_of(e));
    }
    let p = plan(cell, origin, sim, first, roll, gas, picks);
    match e {
        Element::Water => {
            lemma_first_move_lands(e, origin, flowing(first, 3), sim);
        },
        Element::Acid => {
            lemma_first_move_lands(e, origin, flowing(first, 1), sim);
            let m = opt(first_move(e, origin, flowing(first, 1), sim));
            let b = bites(origin, sim, picks);
            let ns = neighbours(sim.width, sim.height, origin);
            lemma_bites_eat(sim, ns, picks, ns.len() as int);
            assert forall|i: int|
                0 <= i < p.len() && (#[trigger] p[i]).t == crate::action::ActionType::Move implies lands(
                e,
                origin,
                sim,
                p[i],
            ) && heading(e, p[i].d.cardinal) by {
                if i < m.len() {
                    assert(p[i] == m[i]);
                } else if i < m.len() + b.len() {
                    assert(p[i] == b[i - m.len()]);
                }
            }
        },
        Element::Lava => {
            lemma_first_move_lands(e, origin, flowing(first, 1), sim);
            let m = opt(first_move(e, origin, flowing(first, 1), sim));
            assert forall|i: int|
                0 <= i < p.len() && (#[trigger] p[i]).t == crate::action::ActionType::Move implies lands(
                e,
                origin,
                sim,
                p[i],
            ) && heading(e, p[i].d.cardinal) by {
                assert(p[i] == m[i - 1]);
            }
        },
        Element::Oil => {
            lemma_first_move_lands(e, origin, flowing(first, 1), sim);
            let m = opt(first_move(e, origin, flowing(first, 1), sim));
            let va = vapour(origin, sim);
            assert forall|i: int|
                0 <= i < p.len() && (#[trigger] p[i]).t == crate::action::ActionType::Move implies lands(
                e,
                origin,
                sim,
                p[i],
            ) && heading(e, p[i].d.cardinal) by {
                if i >= va.len() {
                    assert(p[i] == m[i - va.len()]);
                }
            }
        },
        Element::Sand | Element::CanonPowder | Element::Cinder => {
            lemma_first_move_lands(e, origin, falling(), sim);
        },
        Element::Salt => {
            lemma_first_move_lands(e, origin, falling(), sim);
            let m = opt(first_move(e, origin, falling(), sim));
            assert forall|i: int|
                0 <= i < p.len() && (#[trigger] p[i]).t == crate::action::ActionType::Move implies lands(
                e,
                origin,
                sim,
                p[i],
            ) && heading(e, p[i].d.cardinal) by {
                if i < m.len() {
                    assert(p[i] == m[i]);
                }
            }
        },
        Element::Fire => {
            lemma_step_lands(e, origin, flicker(roll), sim);
            let m = opt(move_result(e, origin, Direction { cardinal: flicker(roll), distance: 1 }, sim));
            assert forall|i: int|
                0 <= i < p.len() && (#[trigger] p[i]).t == crate::action::ActionType::Move implies lands(
                e,
                origin,
                sim,
                p[i],
            ) && heading(e, p[i].d.cardinal) by {
                assert(p[i] == m[i - 1]);
            }
        },
        Element::Smoke => {
            let on = |c: Cardinal| opt(move_result(e, origin, Direction { cardinal: c, distance: 1 }, sim));
            lemma_step_lands(e, origin, Cardinal::N, sim);
            lemma_step_lands(e, origin, Cardinal::NE, sim);
            lemma_step_lands(e, origin, Cardinal::E, sim);
            lemma_step_lands(e, origin, Cardinal::NW, sim);
            lemma_step_lands(e, origin, Cardinal::W, sim);
            let a = on(Cardinal::N);
            let b1 = if first { on(Cardinal::NE) } else { on(Cardinal::NW) };
            let b2 = if first { on(Cardinal::E) } else { on(Cardinal::W) };
            assert(p =~= a + (b1 + b2));
            assert forall|i: int|
                0 <= i < p.len() && (#[trigger] p[i]).t == crate::action::ActionType::Move implies lands(
                e,
                origin,
                sim,
                p[i],
            ) && heading(e, p[i].d.cardinal) by {
                if i < a.len() {
                    assert(p[i] == a[i]);
                } else if i < a.len() + b1.len() {
                    assert(p[i] == b1[i - a.len()]);
                } else {
                    assert(p[i] == b2[i - a.len() - b1.len()]);
                }
            }
        },
        Element::Gas => {
            lemma_scan_lands(e, origin, gas.cardinal, 1, gas.distance as int, sim, None);
        },
        _ => {},
    }
}

/// Acid's bites are all eatings.
proof fn lemma_bites_eat(sim: SimView, ns: Seq<Vector2D>, picks: Seq<bool>, k: int)
    ensures
        forall|i: int|
            0 <= i < bites_upto(sim, ns, picks, k).len() ==> (#[trigger] bites_upto(
                sim,
                ns,
                picks,
                k,
            )[i]).t == crate::action::ActionType::Eat,
    decreases k,
{
    if k > 0 {
        lemma_bites_eat(sim, ns, picks, k - 1);
    }
}

/// A walk that has found a move of `from` along `c` ends with such a move.
proof fn lemma_scan_keeps_move(
    elem: Element,
    from: Vector2D,
    c: Cardinal,
    i: int,
    dist: int,
    sim: SimView,
    found: Option<Action>,
)
    requires
        dist <= u32::MAX,
        found matches Some(a) && a.t == crate::action::ActionType::Move && a.v == from
            && a.d.cardinal == c && 1 <= a.d.distance <= dist,
    ensures
        scan(elem, from, c, i, dist, sim, found) matches Some(a) && a.t
            == crate::action::ActionType::Move && a.v == from && a.d.cardinal == c && 1
            <= a.d.distance <= dist,
    decreases dist + 1 - i,
{
    if 1 <= i <= dist {
        let p = step_from(from, c, i);
        if !sim.in_bounds(p) {
            lemma_scan_keeps_move(elem, from, c, i + 1, dist, sim, found);
        } else {
            let there = sim.element_at(p);
            if !(is_solid(there) || there == elem) && can_enter(elem, there, c) {
                lemma_scan_keeps_move(
                    elem,
                    from,
                    c,
                    i + 1,
                    dist,
                    sim,
                    Some(move_action(from, Direction { cardinal: c, distance: i as u32 })),
                );
            }
        }
    }
}

/// The cell `i` steps straight below `origin` is on the grid and holds
/// matter of another kind than `e` that is neither solid nor as heavy.
pub open spec fn sinks_into(e: Element, origin: Vector2D, sim: SimView, i: int) -> bool {
    let p = step_from(origin, Cardinal::S, i);
    &&& sim.in_bounds(p)
    &&& !is_solid(sim.element_at(p))
    &&& sim.element_at(p) != e
    &&& density_of(e) > density_of(sim.element_at(p))
}

/// A walk from step `i` down a clear stretch ends at its last step.
proof fn lemma_scan_clear(elem: Element, from: Vector2D, i: int, dist: int, sim: SimView, found: Option<Action>)
    requires
        1 <= i,
        dist <= u32::MAX,
        forall|j: int| i <= j <= dist ==> #[trigger] sinks_into(elem, from, sim, j),
    ensures
        scan(elem, from, Cardinal::S, i, dist, sim, found) == if i <= dist {
            Some(move_action(from, Direction { cardinal: Cardinal::S, distance: dist as u32 }))
        } else {
            found
        },
    decreases dist + 1 - i,
{
    if i <= dist {
        assert(sinks_into(elem, from, sim, i));
        lemma_scan_clear(
            elem,
            from,
            i + 1,
            dist,
            sim,
            Some(move_action(from, Direction { cardinal: Cardinal::S, distance: i as u32 })),
        );
    }
}

/// What a cell whose step straight below is open plans: its first try is
/// a walk straight down of `d` steps, which finds a move down of one to `d`
/// steps, and of all `d` steps where the whole stretch is open.
proof fn lemma_first_try_down(e: Element, origin: Vector2D, sim: SimView, dirs: Seq<Direction>, d: u32)
    requires
        1 <= d,
        dirs.len() >= 1,
        dirs[0] == (Direction { cardinal: Cardinal::S, distance: d }),
        sinks_into(e, origin, sim, 1),
    ensures
        first_move(e, origin, dirs, sim) matches Some(a) && a.t == crate::action::ActionType::Move
            && a.v == origin && a.d.cardinal == Cardinal::S && 1 <= a.d.distance <= d,
        (forall|j: int| 1 <= j <= d ==> #[trigger] sinks_into(e, origin, sim, j)) ==> first_move(
            e,
            origin,
            dirs,
            sim,
        ) == Some(move_action(origin, Direction { cardinal: Cardinal::S, distance: d })),
{
    let down = move_action(origin, Direction { cardinal: Cardinal::S, distance: 1 });
    assert(scan(e, origin, Cardinal::S, 1, d as int, sim, None) == scan(
        e,
        origin,
        Cardinal::S,
        2,
        d as int,
        sim,
        Some(down),
    ));
    lemma_scan_keeps_move(e, origin, Cardinal::S, 2, d as int, sim, Some(down));
    if forall|j: int| 1 <= j <= d ==> #[trigger] sinks_into(e, origin, sim, j) {
        lemma_scan_clear(e, origin, 1, d as int, sim, None);
    }
    assert(first_move(e, origin, dirs, sim) == move_result(e, origin, dirs[0], sim));
}

/// A liquid (water, acid, lava or oil) whose step straight below is open
/// flows: its plan holds a move of its position straight down, as far as
/// the liquid reaches (three steps for water, one for the others) where
/// the whole stretch below is open. Lava plans exactly two requests: to
/// burn where it stands, then to sink one step.
pub proof fn lemma_liquid_flows_down(
    cell: CellView,
    origin: Vector2D,
    sim: SimView,
    first: bool,
    roll: u32,
    gas: Direction,
    picks: Seq<bool>,
)
    requires
        cell.element == Element::Water || cell.element == Element::Acid || cell.element
            == Element::Lava || cell.element == Element::Oil,
        sinks_into(cell.element, origin, sim, 1),
    ensures
        exists|i: int|
            0 <= i < plan(cell, origin, sim, first, roll, gas, picks).len() && {
                let a = #[trigger] plan(cell, origin, sim, first, roll, gas, picks)[i];
                &&& a.t == crate::action::ActionType::Move
                &&& a.v == origin
                &&& a.d.cardinal == Cardinal::S
                &&& 1 <= a.d.distance <= reach_of(cell.element)
                &&& (forall|j: int|
                    1 <= j <= reach_of(cell.element) ==> #[trigger] sinks_into(
                        cell.element,
                        origin,
                        sim,
                        j,
                    )) ==> a == move_action(
                    origin,
                    Direction { cardinal: Cardinal::S, distance: reach_of(cell.element) as u32 },
                )
            },
        cell.element == Element::Lava ==> plan(cell, origin, sim, first, roll, gas, picks) == seq![
            burn_action(origin),
            move_action(origin, Direction { cardinal: Cardinal::S, distance: 1 }),
        ],
{
    let e = cell.element;
    let d: u32 = if e == Element::Water { 3 } else { 1 };
    let dirs = flowing(first, d);
    lemma_first_try_down(e, origin, sim, dirs, d);
    if e == Element::Lava {
        assert(sinks_into(e, origin, sim, 1));
    }
    let m = first_move(e, origin, dirs, sim);
    let a = m->Some_0;
    let p = plan(cell, origin, sim, first, roll, gas, picks);
    if e == Element::Water {
        assert(p[0] == a);
    } else if e == Element::Acid {
        assert(p[0] == a);
    } else if e == Element::Lava {
        assert(p[1] == a);
        assert(p =~= seq![burn_action(origin), a]);
    } else {
        let va = vapour(origin, sim);
        assert(p[va.len() as int] == a);
    }
}

/// A powder (sand, salt, canon powder or cinder) whose step straight below
/// is open falls: its plan begins with a move of its position straight
/// down, two steps where both steps below are open.
pub proof fn lemma_powder_falls(
    cell: CellView,
    origin: Vector2D,
    sim: SimView,
    first: bool,
    roll: u32,
    gas: Direction,
    picks: Seq<bool>,
)
    requires
        cell.element == Element::Sand || cell.element == Element::Salt || cell.element
            == Element::CanonPowder || cell.element == Element::Cinder,
        sinks_into(cell.element, origin, sim, 1),
    ensures
        ({
            let p = plan(cell, origin, sim, first, roll, gas, picks);
            &&& p.len() >= 1
            &&& p[0].t == crate::action::ActionType::Move
            &&& p[0].v == origin
            &&& p[0].d.cardinal == Cardinal::S
            &&& 1 <= p[0].d.distance <= 2
            &&& sinks_into(cell.element, origin, sim, 2) ==> p[0] == move_action(
                origin,
                Direction { cardinal: Cardinal::S, distance: 2 },
            )
        }),
{
    let e = cell.element;
    lemma_first_try_down(e, origin, sim, falling(), 2);
    if sinks_into(e, origin, sim, 2) {
        assert forall|j: int| 1 <= j <= 2 implies #[trigger] sinks_into(e, origin, sim, j) by {
            if j == 1 {
            } else {
                assert(j == 2);
            }
        }
    }
    let m = first_move(e, origin, falling(), sim);
    let p = plan(cell, origin, sim, first, roll, gas, picks);
    assert(p[0] == m->Some_0);
}

/// The requests a cell makes where it stands, whatever else it plans: fire
/// burns first and acid burns last; salt ends by asking to dissolve; oil
/// under air first asks the air above it to burn; an ember only burns, moss
/// only grows, ice only melts, and air, stone, wood and coal ask nothing.
pub proof fn lemma_standing_requests(
    cell: CellView,
    origin: Vector2D,
    sim: SimView,
    first: bool,
    roll: u32,
    gas: Direction,
    picks: Seq<bool>,
)
    ensures
        ({
            let p = plan(cell, origin, sim, first, roll, gas, picks);
            let above = step_from(origin, Cardinal::N, 1);
            &&& cell.element == Element::Fire ==> p.len() >= 1 && p[0] == burn_action(origin)
            &&& cell.element == Element::Acid ==> p.len() >= 1 && p.last() == burn_action(origin)
            &&& cell.element == Element::Salt ==> p.len() >= 1 && p.last() == disolve_action(origin)
            &&& cell.element == Element::Oil && sim.in_bounds(above) && sim.element_at(above)
                == Element::Air ==> p.len() >= 1 && p[0] == burn_action(above)
            &&& cell.element == Element::Ember ==> p == seq![burn_action(origin)]
            &&& cell.element == Element::Moss ==> p == seq![grow_action(origin)]
            &&& cell.element == Element::Ice ==> p == seq![liquidize_action(origin)]
            &&& cell.element == Element::Air || cell.element == Element::Stone || cell.element
                == Element::Wood || cell.element == Element::Coal ==> p.len() == 0
        }),
{
}

/// The bites among the first `k` neighbours are exactly the eatings, each
/// leaving air, of the edible neighbours that are picked.
proof fn lemma_bites_picked(sim: SimView, ns: Seq<Vector2D>, picks: Seq<bool>, k: int)
    requires
        0 <= k <= ns.len(),
        k <= picks.len(),
    ensures
        forall|i: int|
            #![trigger bites_upto(sim, ns, picks, k)[i]]
            0 <= i < bites_upto(sim, ns, picks, k).len() ==> exists|j: int|
                0 <= j < k && picks[j] && edible(sim, #[trigger] ns[j]) && bites_upto(sim, ns, picks, k)[i]
                    == eat_action(ns[j], Element::Air),
        forall|j: int|
            0 <= j < k && picks[j] && edible(sim, #[trigger] ns[j]) ==> bites_upto(
                sim,
                ns,
                picks,
                k,
            ).contains(eat_action(ns[j], Element::Air)),
    decreases k,
{
    if k > 0 {
        lemma_bites_picked(sim, ns, picks, k - 1);
        let prev = bites_upto(sim, ns, picks, k - 1);
        let cur = bites_upto(sim, ns, picks, k);
        assert forall|i: int| #![trigger cur[i]] 0 <= i < cur.len() implies exists|j: int|
            0 <= j < k && picks[j] && edible(sim, #[trigger] ns[j]) && cur[i] == eat_action(ns[j], Element::Air) by {
            if i < prev.len() {
                assert(cur[i] == prev[i]);
            } else {
                assert(cur[i] == eat_action(ns[k - 1], Element::Air));
                assert(edible(sim, ns[k - 1]));
            }
        }
        assert forall|j: int| 0 <= j < k && picks[j] && edible(sim, #[trigger] ns[j]) implies cur.contains(
            eat_action(ns[j], Element::Air),
        ) by {
            if j < k - 1 {
                let i = choose|i: int| 0 <= i < prev.len() && prev[i] == eat_action(ns[j], Element::Air);
                assert(cur[i] == prev[i]);
            } else {
                assert(cur[prev.len() as int] == eat_action(ns[j], Element::Air));
            }
        }
    }
}

/// A walk finds nothing but moves.
proof fn lemma_scan_moves(elem: Element, from: Vector2D, c: Cardinal, i: int, dist: int, sim: SimView, found: Option<Action>)
    requires
        found matches Some(a) ==> a.t == crate::action::ActionType::Move,
    ensures
        scan(elem, from, c, i, dist, sim, found) matches Some(a) ==> a.t == crate::action::ActionType::Move,
    decreases dist + 1 - i,
{
    if 1 <= i <= dist {
        lemma_scan_moves(elem, from, c, i + 1, dist, sim, found);
        lemma_scan_moves(
            elem,
            from,
            c,
            i + 1,
            dist,
            sim,
            Some(move_action(from, Direction { cardinal: c, distance: i as u32 })),
        );
    }
}

/// The first possible move along some directions is a move.
proof fn lemma_first_move_moves(elem: Element, from: Vector2D, dirs: Seq<Direction>, sim: SimView)
    ensures
        first_move(elem, from, dirs, sim) matches Some(a) ==> a.t == crate::action::ActionType::Move,
    decreases dirs.len(),
{
    if dirs.len() > 0 {
        lemma_scan_moves(elem, from, dirs[0].cardinal, 1, dirs[0].distance as int, sim, None);
        lemma_first_move_moves(elem, from, dirs.drop_first(), sim);
    }
}

/// Acid bites its neighbours: its plan eats, leaving air, each neighbour
/// that is picked and is neither air nor acid, and eats no other cell.
pub proof fn lemma_acid_bites(
    cell: CellView,
    origin: Vector2D,
    sim: SimView,
    first: bool,
    roll: u32,
    gas: Direction,
    picks: Seq<bool>,
)
    requires
        cell.element == Element::Acid,
        picks.len() == neighbours(sim.width, sim.height, origin).len(),
    ensures
        ({
            let p = plan(cell, origin, sim, first, roll, gas, picks);
            let ns = neighbours(sim.width, sim.height, origin);
            &&& forall|j: int|
                0 <= j < ns.len() && picks[j] && sim.element_at(#[trigger] ns[j]) != Element::Air
                    && sim.element_at(ns[j]) != Element::Acid ==> p.contains(
                    eat_action(ns[j], Element::Air),
                )
            &&& forall|i: int|
                0 <= i < p.len() && (#[trigger] p[i]).t == crate::action::ActionType::Eat
                    ==> exists|j: int|
                    0 <= j < ns.len() && picks[j] && sim.element_at(#[trigger] ns[j])
                        != Element::Air && sim.element_at(ns[j]) != Element::Acid && p[i]
                        == eat_action(ns[j], Element::Air)
        }),
{
    let p = plan(cell, origin, sim, first, roll, gas, picks);
    let ns = neighbours(sim.width, sim.height, origin);
    let m = opt(first_move(Element::Acid, origin, flowing(first, 1), sim));
    let b = bites(origin, sim, picks);
    lemma_bites_picked(sim, ns, picks, ns.len() as int);
    lemma_first_move_moves(Element::Acid, origin, flowing(first, 1), sim);
    assert forall|j: int|
        0 <= j < ns.len() && picks[j] && sim.element_at(#[trigger] ns[j]) != Element::Air
            && sim.element_at(ns[j]) != Element::Acid implies p.contains(eat_action(ns[j], Element::Air)) by {
        assert(edible(sim, ns[j]));
        let i = choose|i: int| 0 <= i < b.len() && b[i] == eat_action(ns[j], Element::Air);
        assert(p[m.len() + i] == b[i]);
    }
    assert forall|i: int|
        0 <= i < p.len() && (#[trigger] p[i]).t == crate::action::ActionType::Eat implies exists|j: int|
            0 <= j < ns.len() && picks[j] && sim.element_at(#[trigger] ns[j]) != Element::Air
                && sim.element_at(ns[j]) != Element::Acid && p[i] == eat_action(ns[j], Element::Air) by {
        if i < m.len() {
            assert(p[i] == m[i]);
        } else if i < m.len() + b.len() {
            assert(p[i] == b[i - m.len()]);
            let j = choose|j: int|
                0 <= j < ns.len() && picks[j] && edible(sim, #[trigger] ns[j]) && b[i - m.len()]
                    == eat_action(ns[j], Element::Air);
            assert(sim.element_at(ns[j]) != Element::Air);
        } else {
            assert(p[i] == burn_action(origin));
        }
    }
}

/// One frame of ageing, element by element: a cell without a life is
/// untouched; with a life above one, fire, smoke, embers and acid lose one
/// unit of it and every other element keeps it, all else kept; at a life of
/// one the cell is replaced by a new, marked cell of air, or for an ember
/// possibly of cinder.
pub proof fn lemma_decay_counts_down(before: Cell, after: Cell)
    requires
        decayed(before, after),
    ensures
        match before@.life {
            None => after == before,
            Some(l) => if l == 1 {
                &&& after@.element == Element::Air || (before@.element == Element::Ember
                    && after@.element == Element::Cinder)
                &&& after@.life is None
                &&& after@.velocity == zero()
                &&& after@.updated
            } else {
                l > 1 ==> after@ == (CellView {
                    life: Some(
                        if before@.element == Element::Fire || before@.element == Element::Smoke
                            || before@.element == Element::Ember || before@.element
                            == Element::Acid {
                            (l - 1) as u32
                        } else {
                            l
                        },
                    ),
                    ..before@
                })
            },
        },
{
}

/// Smoke whose cell straight above is on the grid and holds heavier matter
/// of another kind that is not solid rises: its plan begins with a move of
/// one step straight up.
pub proof fn lemma_smoke_rises(
    cell: CellView,
    origin: Vector2D,
    sim: SimView,
    first: bool,
    roll: u32,
    gas: Direction,
    picks: Seq<bool>,
)
    requires
        cell.element == Element::Smoke,
        sim.in_bounds(step_from(origin, Cardinal::N, 1)),
        !is_solid(sim.element_at(step_from(origin, Cardinal::N, 1))),
        sim.element_at(step_from(origin, Cardinal::N, 1)) != Element::Smoke,
        density_of(Element::Smoke) < density_of(sim.element_at(step_from(origin, Cardinal::N, 1))),
    ensures
        plan(cell, origin, sim, first, roll, gas, picks).len() >= 1,
        plan(cell, origin, sim, first, roll, gas, picks)[0] == move_action(
            origin,
            Direction { cardinal: Cardinal::N, distance: 1 },
        ),
{
    let up = move_action(origin, Direction { cardinal: Cardinal::N, distance: 1 });
    assert(can_enter(Element::Smoke, sim.element_at(step_from(origin, Cardinal::N, 1)), Cardinal::N));
    assert(scan(Element::Smoke, origin, Cardinal::N, 2, 1, sim, Some(up)) == Some(up));
    assert(scan(Element::Smoke, origin, Cardinal::N, 1, 1, sim, None) == Some(up));
    let p = plan(cell, origin, sim, first, roll, gas, picks);
    assert(p[0] == up);
}

} // verus!
