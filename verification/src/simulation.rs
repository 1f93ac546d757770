//! The world: a rectangle of cells, the requests that change it, and the
//! frame-by-frame update that drives it.

use vstd::prelude::*;
use crate::{Action, Cell, Direction, Element, Vector2D};
use crate::action::ActionType;
use crate::cell::{CellView, admissible, decayed, bites, bites_upto, falling, first_move, flicker, flowing, is_fresh, move_result, opt, plan, scan, vapour, group_cell_views};
use crate::action::move_action;
use crate::reaction::{BurnRolls, Change, burn_admissible, burn_outcome, burn_outcome_of, changed, lemma_ignition};
use crate::random::{gen_ratio, thread_rng};
use vstd::seq_lib::to_multiset_contains;
use crate::element::lemma_burn_chance_is_a_probability;
use crate::direction::{Cardinal, all_cardinals, step_of};
use crate::grid::{fits, inside, lemma_fits, lemma_neighbours_distinct, lemma_neighbours_inside, lemma_inside_reach, lemma_path_inside, lemma_step_compose, lemma_step_distinct, lemma_step_moves, neighbours, neighbours_upto, step_from, within_reach};
use crate::element::{ELEMENT_COUNT, byte_of, element_of_byte, symbol_of};
use crate::text::string_of;

verus! {

broadcast use group_cell_views;

/// The world as contracts speak of it: its size, its cells row by row
/// (`cells[y][x]`), and the bytes of its last picture.
pub struct SimView {
    pub width: int,
    pub height: int,
    pub cells: Seq<Seq<Cell>>,
    pub data: Seq<u8>,
}

impl SimView {
    pub open spec fn in_bounds(self, p: Vector2D) -> bool {
        inside(self.width, self.height, p)
    }

    pub open spec fn cell(self, p: Vector2D) -> Cell {
        self.cells[p.y as int][p.x as int]
    }

    pub open spec fn element_at(self, p: Vector2D) -> Element {
        self.cell(p)@.element
    }

    /// The shape the world keeps: a `width` by `height` rectangle whose
    /// picture fits the index arithmetic, three bytes per cell, and whose
    /// cells' counting-down lives never read zero.
    pub open spec fn wf(self) -> bool {
        &&& 0 <= self.width
        &&& 0 <= self.height
        &&& self.width * self.height * 3 <= i32::MAX
        &&& self.cells.len() == self.height
        &&& forall|y: int| 0 <= y < self.height ==> (#[trigger] self.cells[y]).len() == self.width
        &&& self.data.len() == self.width * self.height * 3
        &&& forall|y: int, x: int|
            0 <= y < self.height && 0 <= x < self.width ==> (#[trigger] self.cells[y][x])@.life
                != Some(0u32)
    }

    /// The same world with `c` at `p`.
    pub open spec fn put(self, p: Vector2D, c: Cell) -> SimView {
        SimView {
            cells: self.cells.update(p.y as int, self.cells[p.y as int].update(p.x as int, c)),
            ..self
        }
    }

    /// The world after the cells at `a` and `b` trade places, both marked.
    pub open spec fn swapped(self, a: Vector2D, b: Vector2D) -> SimView {
        let ca = self.cell(a);
        let cb = self.cell(b);
        let s1 = self.put(a, cb);
        let s2 = s1.put(b, ca);
        let s3 = s2.put(a, s2.cell(a).marked());
        s3.put(b, s3.cell(b).marked())
    }

    /// The two worlds have the same size and picture.
    pub open spec fn same_frame(self, other: SimView) -> bool {
        &&& self.width == other.width
        &&& self.height == other.height
        &&& self.cells.len() == other.cells.len()
        &&& self.data == other.data
    }
}

/// Writing a cell changes that cell only, and keeps the world's shape when
/// the cell can be stored.
pub proof fn lemma_put(s: SimView, p: Vector2D, c: Cell, q: Vector2D)
    requires
        s.wf(),
        s.in_bounds(p),
        s.in_bounds(q),
    ensures
        s.put(p, c).cell(q) == (if q == p { c } else { s.cell(q) }),
        s.put(p, c).same_frame(s),
        storable(c) ==> s.put(p, c).wf(),
{
    let t = s.put(p, c);
    if storable(c) {
        assert forall|y: int, x: int| 0 <= y < t.height && 0 <= x < t.width implies (
        #[trigger] t.cells[y][x])@.life != Some(0u32) by {
            if y == p.y && x == p.x {
            } else {
                assert(t.cells[y][x] == s.cells[y][x]);
            }
        }
    }
}

/// Trading two cells: each lands, marked, where the other was; nothing
/// else changes, and the world keeps its shape.
pub proof fn lemma_swapped(s: SimView, a: Vector2D, b: Vector2D, q: Vector2D)
    requires
        s.wf(),
        s.in_bounds(a),
        s.in_bounds(b),
        s.in_bounds(q),
    ensures
        s.swapped(a, b).wf(),
        s.swapped(a, b).same_frame(s),
        s.swapped(a, b).cell(q) == (if q == b {
            s.cell(a).marked()
        } else if q == a {
            s.cell(b).marked()
        } else {
            s.cell(q)
        }),
{
    let ca = s.cell(a);
    let cb = s.cell(b);
    let s1 = s.put(a, cb);
    lemma_put(s, a, cb, a);
    lemma_put(s, a, cb, b);
    lemma_put(s, a, cb, q);
    let s2 = s1.put(b, ca);
    lemma_put(s1, b, ca, a);
    lemma_put(s1, b, ca, b);
    lemma_put(s1, b, ca, q);
    let s3 = s2.put(a, s2.cell(a).marked());
    lemma_put(s2, a, s2.cell(a).marked(), a);
    lemma_put(s2, a, s2.cell(a).marked(), b);
    lemma_put(s2, a, s2.cell(a).marked(), q);
    lemma_put(s3, b, s3.cell(b).marked(), q);
    lemma_put(s3, b, s3.cell(b).marked(), b);
}

/// Trading the same two cells twice puts every cell back where it was,
/// marked as changed.
pub proof fn lemma_swap_twice(s: SimView, a: Vector2D, b: Vector2D, q: Vector2D)
    requires
        s.wf(),
        s.in_bounds(a),
        s.in_bounds(b),
        s.in_bounds(q),
    ensures
        s.swapped(a, b).swapped(a, b).cell(q) == if q == a || q == b {
            s.cell(q).marked()
        } else {
            s.cell(q)
        },
{
    let s1 = s.swapped(a, b);
    lemma_swapped(s, a, b, a);
    lemma_swapped(s, a, b, b);
    lemma_swapped(s, a, b, q);
    lemma_swapped(s1, a, b, q);
}

/// The world after the cell at `v` moves `k` single steps along `c`,
/// trading places with each cell in its way.
pub open spec fn moved(s: SimView, v: Vector2D, c: Cardinal, k: nat) -> SimView
    decreases k,
{
    if k == 0 {
        s
    } else {
        let next = step_from(v, c, 1);
        moved(s.swapped(v, next), next, c, (k - 1) as nat)
    }
}

/// A move along a path of `d >= 1` steps rotates the path: the mover lands
/// at the far end, every other cell on the path shifts one step back
/// towards the start, all of them marked; the rest of the world is
/// untouched and keeps its shape.
pub proof fn lemma_move_rotates(s: SimView, v: Vector2D, c: Cardinal, d: nat)
    requires
        s.wf(),
        d >= 1,
        s.in_bounds(v),
        fits(v, c, d as int),
        s.in_bounds(step_from(v, c, d as int)),
    ensures
        moved(s, v, c, d).wf(),
        moved(s, v, c, d).same_frame(s),
        moved(s, v, c, d).cell(step_from(v, c, d as int)) == s.cell(v).marked(),
        forall|j: int|
            0 <= j < d ==> #[trigger] moved(s, v, c, d).cell(step_from(v, c, j)) == s.cell(
                step_from(v, c, j + 1),
            ).marked(),
        forall|q: Vector2D|
            s.in_bounds(q) && (forall|j: int| 0 <= j <= d ==> q != #[trigger] step_from(v, c, j))
                ==> #[trigger] moved(s, v, c, d).cell(q) == s.cell(q),
    decreases d,
{
    let v1 = step_from(v, c, 1);
    lemma_path_inside(s.width, s.height, v, c, d as int, 1);
    lemma_path_inside(s.width, s.height, v, c, d as int, 0);
    assert(step_from(v, c, 0) == v);
    let s1 = s.swapped(v, v1);
    lemma_swapped(s, v, v1, v);
    lemma_swapped(s, v, v1, v1);
    lemma_step_moves(v, c, 1);
    if d == 1 {
        assert(moved(s1, v1, c, 0) == s1);
        assert(moved(s, v, c, d) == s1);
        assert forall|j: int| 0 <= j < d implies #[trigger] moved(s, v, c, d).cell(step_from(v, c, j))
            == s.cell(step_from(v, c, j + 1)).marked() by {
            assert(j == 0);
        }
        assert forall|q: Vector2D|
            s.in_bounds(q) && (forall|j: int| 0 <= j <= d ==> q != #[trigger] step_from(v, c, j))
            implies #[trigger] moved(s, v, c, d).cell(q) == s.cell(q) by {
            assert(q != step_from(v, c, 0));
            assert(q != step_from(v, c, 1));
            lemma_swapped(s, v, v1, q);
        }
    } else {
        let e = (d - 1) as nat;
        lemma_step_compose(v, c, e as int);
        lemma_move_rotates(s1, v1, c, e);
        assert(moved(s, v, c, d) == moved(s1, v1, c, e));
        let m = moved(s1, v1, c, e);
        // the far end
        assert(step_from(v1, c, e as int) == step_from(v, c, d as int));
        // the start is off the rest of the path
        assert forall|j: int| 0 <= j <= e implies v != #[trigger] step_from(v1, c, j) by {
            lemma_path_inside(s.width, s.height, v, c, d as int, j + 1);
            lemma_step_compose(v, c, j);
            lemma_step_distinct(v, c, 0, j + 1);
        }
        assert(m.cell(v) == s1.cell(v));
        assert forall|j: int| 0 <= j < d implies #[trigger] m.cell(step_from(v, c, j)) == s.cell(
            step_from(v, c, j + 1),
        ).marked() by {
            if j == 0 {
            } else {
                lemma_path_inside(s.width, s.height, v, c, d as int, j);
                lemma_path_inside(s.width, s.height, v, c, d as int, j + 1);
                lemma_step_compose(v, c, j - 1);
                lemma_step_compose(v, c, j);
                assert(step_from(v, c, j) == step_from(v1, c, j - 1));
                assert(m.cell(step_from(v1, c, j - 1)) == s1.cell(step_from(v1, c, j)).marked());
                lemma_step_distinct(v, c, 0, j + 1);
                lemma_step_distinct(v, c, 1, j + 1);
                lemma_swapped(s, v, v1, step_from(v, c, j + 1));
            }
        }
        assert forall|q: Vector2D|
            s.in_bounds(q) && (forall|j: int| 0 <= j <= d ==> q != #[trigger] step_from(v, c, j))
            implies #[trigger] m.cell(q) == s.cell(q) by {
            assert(q != step_from(v, c, 0));
            assert(q != step_from(v, c, 1));
            assert forall|j: int| 0 <= j <= e implies q != #[trigger] step_from(v1, c, j) by {
                lemma_path_inside(s.width, s.height, v, c, d as int, j + 1);
                lemma_step_compose(v, c, j);
                assert(q != step_from(v, c, j + 1));
            }
            lemma_swapped(s, v, v1, q);
        }
    }
}

/// The request can be carried out on a `w` by `h` world: a move of at
/// least one step starts and ends on the grid; eating, burning, dissolving
/// and melting are made for a cell on the grid; growing only needs the
/// neighbours of its position to be computable; dying can be asked anywhere.
pub open spec fn valid_action(w: int, h: int, a: Action) -> bool {
    match a.t {
        ActionType::Die => true,
        ActionType::Grow => within_reach(a.v, 1),
        ActionType::Move => a.d.distance == 0 || {
            &&& inside(w, h, a.v)
            &&& fits(a.v, a.d.cardinal, a.d.distance as int)
            &&& inside(w, h, step_from(a.v, a.d.cardinal, a.d.distance as int))
        },
        _ => inside(w, h, a.v),
    }
}

/// `q` is none of the positions in `ns`.
pub open spec fn apart(q: Vector2D, ns: Seq<Vector2D>) -> bool {
    forall|i: int| 0 <= i < ns.len() ==> q != #[trigger] ns[i]
}

/// The change to the burning cell after its first `m` burn steps: that of
/// the last step that changes it, or `Keep` if none does.
pub open spec fn burn_origin(
    s: SimView,
    ns: Seq<Vector2D>,
    src: Element,
    rs: Seq<BurnRolls>,
    m: int,
) -> Change
    decreases m,
{
    if m <= 0 {
        Change::Keep
    } else {
        let o = burn_outcome(src, s.element_at(ns[m - 1]), rs[m - 1]).origin;
        if o != Change::Keep {
            o
        } else {
            burn_origin(s, ns, src, rs, m - 1)
        }
    }
}

/// `t` is `s` after the cell at `v` burns with the chances `rs`, one per
/// neighbour in compass order: the burn steps are taken in that order on the
/// first `m` neighbours, each changing its neighbour as it says, and burning
/// stops after the first step that stops it, or after the last neighbour.
/// The burning cell ends as the last step that changes it says; the
/// neighbours not reached, and the rest of the world, are untouched.
pub open spec fn burn_run(s: SimView, t: SimView, v: Vector2D, rs: Seq<BurnRolls>, m: int) -> bool {
    let ns = neighbours(s.width, s.height, v);
    let src = s.element_at(v);
    &&& rs.len() == ns.len()
    &&& 0 <= m <= ns.len()
    &&& forall|j: int|
        0 <= j < m - 1 ==> !(#[trigger] burn_outcome(src, s.element_at(ns[j]), rs[j])).stop
    &&& (m == ns.len() || (1 <= m && burn_outcome(src, s.element_at(ns[m - 1]), rs[m - 1]).stop))
    &&& forall|j: int|
        0 <= j < m ==> changed(
            s.cell(ns[j]),
            #[trigger] t.cell(ns[j]),
            burn_outcome(src, s.element_at(ns[j]), rs[j]).neighbour,
        )
    &&& forall|j: int| m <= j < ns.len() ==> #[trigger] t.cell(ns[j]) == s.cell(ns[j])
    &&& changed(s.cell(v), t.cell(v), burn_origin(s, ns, src, rs, m))
    &&& forall|q: Vector2D|
        s.in_bounds(q) && q != v && apart(q, ns) ==> #[trigger] t.cell(q) == s.cell(q)
}

/// `t` is `s` after the cell at `v` burns, for some chances that can come
/// out: one admissible draw per neighbour.
pub open spec fn burned(s: SimView, t: SimView, v: Vector2D) -> bool {
    let ns = neighbours(s.width, s.height, v);
    let src = s.element_at(v);
    exists|rs: Seq<BurnRolls>, m: int|
        #[trigger] burn_run(s, t, v, rs, m) && forall|j: int|
            0 <= j < rs.len() ==> burn_admissible(src, s.element_at(ns[j]), #[trigger] rs[j])
}

/// `t` is `s` after moss at `v` grows with the picks `picks`, one per
/// neighbour in compass order: each picked neighbour of water becomes new
/// moss, marked; every other cell is untouched.
pub open spec fn grow_run(s: SimView, t: SimView, v: Vector2D, picks: Seq<bool>) -> bool {
    let ns = neighbours(s.width, s.height, v);
    &&& picks.len() == ns.len()
    &&& forall|q: Vector2D| s.in_bounds(q) && apart(q, ns) ==> #[trigger] t.cell(q) == s.cell(q)
    &&& forall|j: int|
        0 <= j < ns.len() ==> if picks[j] && s.element_at(ns[j]) == Element::Water {
            changed(s.cell(ns[j]), #[trigger] t.cell(ns[j]), Change::Fresh(Element::Moss, true))
        } else {
            t.cell(ns[j]) == s.cell(ns[j])
        }
}

/// `t` is `s` after moss at `v` grows, for some picks.
pub open spec fn grown(s: SimView, t: SimView, v: Vector2D) -> bool {
    exists|picks: Seq<bool>| #[trigger] grow_run(s, t, v, picks)
}

/// The neighbour turns the cell into water: water dissolves salt; fire and
/// smoke (`hot`) melt ice.
pub open spec fn soaks(e: Element, hot: bool) -> bool {
    if hot {
        e == Element::Fire || e == Element::Smoke
    } else {
        e == Element::Water
    }
}

/// Some neighbour that `picks` selects soaks the cell.
pub open spec fn soaked_by(s: SimView, ns: Seq<Vector2D>, picks: Seq<bool>, hot: bool) -> bool {
    exists|j: int| 0 <= j < ns.len() && picks[j] && soaks(s.element_at(#[trigger] ns[j]), hot)
}

/// `t` is `s` after the cell at `v` dissolves (or, `hot`, melts) with the
/// picks `picks`, one per neighbour in compass order: if a picked neighbour
/// soaks it, it becomes new water, marked; otherwise it is untouched. The
/// rest of the world is untouched.
pub open spec fn soak_run(s: SimView, t: SimView, v: Vector2D, hot: bool, picks: Seq<bool>) -> bool {
    let ns = neighbours(s.width, s.height, v);
    &&& picks.len() == ns.len()
    &&& forall|q: Vector2D| s.in_bounds(q) && q != v ==> #[trigger] t.cell(q) == s.cell(q)
    &&& if soaked_by(s, ns, picks, hot) {
        changed(s.cell(v), t.cell(v), Change::Fresh(Element::Water, true))
    } else {
        t.cell(v) == s.cell(v)
    }
}

/// `t` is `s` after the cell at `v` dissolves (or, `hot`, melts), for some
/// picks.
pub open spec fn soaked(s: SimView, t: SimView, v: Vector2D, hot: bool) -> bool {
    exists|picks: Seq<bool>| #[trigger] soak_run(s, t, v, hot, picks)
}

/// `t` is `s` after the request `a` is carried out.
pub open spec fn applied(s: SimView, t: SimView, a: Action) -> bool {
    &&& t.wf()
    &&& t.same_frame(s)
    &&& match a.t {
        ActionType::Move => t == moved(s, a.v, a.d.cardinal, a.d.distance as nat),
        ActionType::Eat => t == s.put(a.v, s.cell(a.v).with_element(a.e)),
        ActionType::Die => t == s,
        ActionType::Burn => burned(s, t, a.v),
        ActionType::Grow => grown(s, t, a.v),
        ActionType::Disolve => soaked(s, t, a.v, false),
        ActionType::Liquidize => soaked(s, t, a.v, true),
    }
}

/// Every request in the sequence can be carried out on a `w` by `h` world.
pub open spec fn all_valid(w: int, h: int, actions: Seq<Action>) -> bool {
    forall|i: int| 0 <= i < actions.len() ==> valid_action(w, h, #[trigger] actions[i])
}

/// A move found so far by a walk from `from` is a valid move of `from`.
pub open spec fn move_ok(w: int, h: int, from: Vector2D, found: Option<Action>) -> bool {
    match found {
        None => true,
        Some(a) => a.t == ActionType::Move && a.v == from && valid_action(w, h, a),
    }
}

proof fn lemma_scan_valid(
    elem: Element,
    from: Vector2D,
    c: Cardinal,
    i: int,
    dist: int,
    sim: SimView,
    found: Option<Action>,
)
    requires
        sim.wf(),
        sim.in_bounds(from),
        within_reach(from, 3),
        1 <= i,
        dist <= 3,
        move_ok(sim.width, sim.height, from, found),
    ensures
        move_ok(sim.width, sim.height, from, scan(elem, from, c, i, dist, sim, found)),
    decreases dist + 1 - i,
{
    if i <= dist {
        lemma_fits(from, c, i, 3);
        lemma_scan_valid(elem, from, c, i + 1, dist, sim, found);
        if sim.in_bounds(step_from(from, c, i)) {
            lemma_scan_valid(
                elem,
                from,
                c,
                i + 1,
                dist,
                sim,
                Some(move_action(from, Direction { cardinal: c, distance: i as u32 })),
            );
        }
    }
}

proof fn lemma_first_move_valid(elem: Element, from: Vector2D, dirs: Seq<Direction>, sim: SimView)
    requires
        sim.wf(),
        sim.in_bounds(from),
        within_reach(from, 3),
        forall|k: int| 0 <= k < dirs.len() ==> (#[trigger] dirs[k]).distance <= 3,
    ensures
        move_ok(sim.width, sim.height, from, first_move(elem, from, dirs, sim)),
    decreases dirs.len(),
{
    if dirs.len() > 0 {
        lemma_scan_valid(elem, from, dirs[0].cardinal, 1, dirs[0].distance as int, sim, None);
        let rest = dirs.drop_first();
        assert forall|k: int| 0 <= k < rest.len() implies (#[trigger] rest[k]).distance <= 3 by {
            assert(rest[k] == dirs[k + 1]);
        }
        lemma_first_move_valid(elem, from, rest, sim);
    }
}

proof fn lemma_bites_valid(sim: SimView, ns: Seq<Vector2D>, picks: Seq<bool>, k: int)
    requires
        0 <= k <= ns.len(),
        forall|i: int| 0 <= i < ns.len() ==> sim.in_bounds(#[trigger] ns[i]),
    ensures
        all_valid(sim.width, sim.height, bites_upto(sim, ns, picks, k)),
    decreases k,
{
    if k > 0 {
        lemma_bites_valid(sim, ns, picks, k - 1);
    }
}

proof fn lemma_opt_valid(w: int, h: int, from: Vector2D, o: Option<Action>)
    requires
        move_ok(w, h, from, o),
    ensures
        all_valid(w, h, opt(o)),
{
}

/// Every request a cell on the grid makes can be carried out.
pub proof fn lemma_plan_valid(
    cell: CellView,
    origin: Vector2D,
    sim: SimView,
    first: bool,
    roll: u32,
    gas: Direction,
    picks: Seq<bool>,
)
    requires
        sim.wf(),
        sim.in_bounds(origin),
        admissible(cell, origin, sim, roll, gas, picks),
    ensures
        all_valid(sim.width, sim.height, plan(cell, origin, sim, first, roll, gas, picks)),
{
    let w = sim.width;
    let h = sim.height;
    let e = cell.element;
    lemma_inside_reach(w, h, origin);
    lemma_first_move_valid(e, origin, flowing(first, 3), sim);
    lemma_first_move_valid(e, origin, flowing(first, 1), sim);
    lemma_first_move_valid(e, origin, falling(), sim);
    lemma_opt_valid(w, h, origin, first_move(e, origin, flowing(first, 3), sim));
    lemma_opt_valid(w, h, origin, first_move(e, origin, flowing(first, 1), sim));
    lemma_opt_valid(w, h, origin, first_move(e, origin, falling(), sim));
    let ns = neighbours(w, h, origin);
    lemma_neighbours_inside(w, h, origin, 8);
    lemma_bites_valid(sim, ns, picks, ns.len() as int);
    assert forall|c: Cardinal| true implies all_valid(
        w,
        h,
        opt(move_result(e, origin, Direction { cardinal: c, distance: 1 }, sim)),
    ) by {
        lemma_scan_valid(e, origin, c, 1, 1, sim, None);
        lemma_opt_valid(w, h, origin, move_result(e, origin, Direction { cardinal: c, distance: 1 }, sim));
    }
    lemma_scan_valid(e, origin, gas.cardinal, 1, gas.distance as int, sim, None);
    lemma_opt_valid(w, h, origin, move_result(e, origin, gas, sim));
    lemma_fits(origin, Cardinal::N, 1, 3);
    let p = plan(cell, origin, sim, first, roll, gas, picks);
    assert forall|i: int| 0 <= i < p.len() implies valid_action(w, h, #[trigger] p[i]) by {
        let fl1 = opt(first_move(e, origin, flowing(first, 1), sim));
        let fa = opt(first_move(e, origin, falling(), sim));
        let b = bites(origin, sim, picks);
        let on = |c: Cardinal| opt(move_result(e, origin, Direction { cardinal: c, distance: 1 }, sim));
        match e {
            Element::Acid => {
                assert(all_valid(w, h, fl1));
                assert(all_valid(w, h, b));
                if i < fl1.len() {
                    assert(p[i] == fl1[i]);
                } else if i < fl1.len() + b.len() {
                    assert(p[i] == b[i - fl1.len()]);
                }
            },
            Element::Lava => {
                if i >= 1 {
                    assert(p[i] == fl1[i - 1]);
                }
            },
            Element::Oil => {
                let va = vapour(origin, sim);
                if i >= va.len() {
                    assert(p[i] == fl1[i - va.len()]);
                }
            },
            Element::Salt => {
                if i < fa.len() {
                    assert(p[i] == fa[i]);
                }
            },
            Element::Fire => {
                let f = opt(move_result(e, origin, Direction { cardinal: flicker(roll), distance: 1 }, sim));
                assert(all_valid(w, h, f));
                if i >= 1 {
                    assert(p[i] == f[i - 1]);
                }
            },
            Element::Smoke => {
                let a = on(Cardinal::N);
                let b1 = if first { on(Cardinal::NE) } else { on(Cardinal::NW) };
                let b2 = if first { on(Cardinal::E) } else { on(Cardinal::W) };
                assert(all_valid(w, h, a));
                assert(all_valid(w, h, b1));
                assert(all_valid(w, h, b2));
                assert(p =~= a + (b1 + b2));
                if i < a.len() {
                    assert(p[i] == a[i]);
                } else if i < a.len() + b1.len() {
                    assert(p[i] == b1[i - a.len()]);
                } else {
                    assert(p[i] == b2[i - a.len() - b1.len()]);
                }
            },
            _ => {},
        }
    }
}

/// The picture of a cell: its element's byte, its shade, and 1 if it
/// changed in this frame, else 0.
pub open spec fn pixel(c: Cell, t: int) -> u8 {
    if t == 0 {
        byte_of(c@.element)
    } else if t == 1 {
        c@.variant
    } else if c@.updated {
        1u8
    } else {
        0u8
    }
}

/// The picture shows the world: the cell at `(x, y)` takes the three bytes
/// from `(y * width + x) * 3` on.
pub open spec fn encodes(s: SimView) -> bool {
    forall|y: int, x: int, t: int|
        0 <= y < s.height && 0 <= x < s.width && 0 <= t < 3 ==> s.data[(y * s.width + x) * 3 + t]
            == #[trigger] pixel(s.cells[y][x], t)
}

/// Each cell's three bytes lie inside the picture.
proof fn lemma_pixel_index(w: int, h: int, y: int, x: int)
    requires
        0 <= x < w,
        0 <= y < h,
    ensures
        0 <= y * w + x,
        (y * w + x) * 3 + 2 < w * h * 3,
{
    assert(0 <= y * w) by (nonlinear_arith)
        requires
            0 <= y,
            0 <= w,
    ;
    assert(y * w + x < h * w) by (nonlinear_arith)
        requires
            0 <= x < w,
            0 <= y < h,
    ;
    assert(h * w == w * h) by (nonlinear_arith);
}

/// Different cells own different bytes of the picture.
proof fn lemma_pixel_distinct(w: int, y1: int, x1: int, t1: int, y2: int, x2: int, t2: int)
    requires
        0 <= x1 < w,
        0 <= x2 < w,
        0 <= y1,
        0 <= y2,
        0 <= t1 < 3,
        0 <= t2 < 3,
        y1 != y2 || x1 != x2,
    ensures
        (y1 * w + x1) * 3 + t1 != (y2 * w + x2) * 3 + t2,
{
    if y1 == y2 {
    } else if y1 < y2 {
        assert(y1 * w + x1 < y2 * w + x2) by (nonlinear_arith)
            requires
                0 <= x1 < w,
                0 <= x2,
                y1 < y2,
        ;
    } else {
        assert(y2 * w + x2 < y1 * w + x1) by (nonlinear_arith)
            requires
                0 <= x2 < w,
                0 <= x1,
                y2 < y1,
        ;
    }
}

/// `t` is `s` after the requests `acts` are carried out in order.
pub open spec fn carried(s: SimView, t: SimView, acts: Seq<Action>) -> bool
    decreases acts.len(),
{
    if acts.len() == 0 {
        t == s
    } else {
        exists|m: SimView| carried(s, m, acts.drop_last()) && #[trigger] applied(m, t, acts.last())
    }
}

proof fn lemma_carried_step(s: SimView, m: SimView, t: SimView, acts: Seq<Action>)
    requires
        acts.len() > 0,
        carried(s, m, acts.drop_last()),
        applied(m, t, acts.last()),
    ensures
        carried(s, t, acts),
{
}

/// `t` is `s` after the cell at `p` takes its turn: the requests it plans,
/// for some admissible random choices, are carried out in order, and then
/// the cell that stands at `p` ages.
pub open spec fn turn(s: SimView, t: SimView, p: Vector2D) -> bool {
    exists|first: bool, roll: u32, gas: Direction, picks: Seq<bool>, m: SimView|
        #![trigger carried(s, m, plan(s.cell(p)@, p, s, first, roll, gas, picks))]
        {
            &&& admissible(s.cell(p)@, p, s, roll, gas, picks)
            &&& carried(s, m, plan(s.cell(p)@, p, s, first, roll, gas, picks))
            &&& decayed(m.cell(p), t.cell(p))
            &&& t == m.put(p, t.cell(p))
        }
}

/// `t` is `s` after the cells at `ps` take their turns, in order.
pub open spec fn turns(s: SimView, t: SimView, ps: Seq<Vector2D>) -> bool
    decreases ps.len(),
{
    if ps.len() == 0 {
        t == s
    } else {
        exists|m: SimView| turns(s, m, ps.drop_last()) && #[trigger] turn(m, t, ps.last())
    }
}

/// The positions of row `y` in the column order `order`.
pub open spec fn row_order(y: int, order: Seq<usize>) -> Seq<Vector2D> {
    order.map_values(|x: usize| Vector2D { x: x as i32, y: y as i32 })
}

/// `order` holds each column of a `w`-wide row once.
pub open spec fn is_order(w: int, order: Seq<usize>) -> bool {
    order.to_multiset() == Seq::new(w as nat, |i: int| i as usize).to_multiset()
}

/// `t` is `s` after row `y` is played: its cells take their turns, the
/// columns visited in some order.
pub open spec fn row_played(s: SimView, t: SimView, y: int) -> bool {
    exists|order: Seq<usize>| is_order(s.width, order) && #[trigger] turns(s, t, row_order(y, order))
}

/// `t` is `s` after the first `y` rows are played, from the top.
pub open spec fn rows_played(s: SimView, t: SimView, y: int) -> bool
    decreases y,
{
    if y <= 0 {
        t == s
    } else {
        exists|m: SimView| rows_played(s, m, y - 1) && #[trigger] row_played(m, t, y - 1)
    }
}

/// `t` is `s` after one frame: every row is played, from the top; the size
/// is kept, and the cells are those the rows leave.
pub open spec fn framed(s: SimView, t: SimView) -> bool {
    exists|m: SimView|
        #[trigger] rows_played(s, m, s.height) && t.cells == m.cells && t.width == s.width
            && t.height == s.height
}

/// Row `y` of the world as text: each cell's symbol, then a newline.
pub open spec fn picture_row(s: SimView, y: int) -> Seq<char> {
    Seq::new(s.width as nat, |x: int| symbol_of(s.cells[y][x]@.element)).push('\n')
}

/// The first `k` rows of the world as text.
pub open spec fn picture_upto(s: SimView, k: int) -> Seq<char>
    decreases k,
{
    if k <= 0 {
        seq![]
    } else {
        picture_upto(s, k - 1) + picture_row(s, k - 1)
    }
}

/// The world as text, row by row from the top.
pub open spec fn picture_of(s: SimView) -> Seq<char> {
    picture_upto(s, s.height)
}

/// Every cell of the world is air with no life.
pub open spec fn calm(s: SimView) -> bool {
    forall|y: int, x: int|
        0 <= y < s.height && 0 <= x < s.width ==> (#[trigger] s.cells[y][x])@.element == Element::Air
            && s.cells[y][x]@.life is None
}

proof fn lemma_calm_turn(s: SimView, t: SimView, p: Vector2D)
    requires
        s.wf(),
        calm(s),
        s.in_bounds(p),
        turn(s, t, p),
    ensures
        t == s,
{
    let (first, roll, gas, picks, m) = choose|first: bool, roll: u32, gas: Direction, picks: Seq<bool>, m: SimView|
        #![trigger carried(s, m, plan(s.cell(p)@, p, s, first, roll, gas, picks))]
        {
            &&& admissible(s.cell(p)@, p, s, roll, gas, picks)
            &&& carried(s, m, plan(s.cell(p)@, p, s, first, roll, gas, picks))
            &&& decayed(m.cell(p), t.cell(p))
            &&& t == m.put(p, t.cell(p))
        };
    assert(s.cells[p.y as int][p.x as int]@.element == Element::Air);
    assert(plan(s.cell(p)@, p, s, first, roll, gas, picks).len() == 0);
    assert(m == s);
    assert(t.cell(p) == s.cell(p));
    assert(s.cells[p.y as int].update(p.x as int, s.cell(p)) =~= s.cells[p.y as int]);
    assert(s.put(p, s.cell(p)).cells =~= s.cells);
}

proof fn lemma_calm_turns(s: SimView, t: SimView, ps: Seq<Vector2D>)
    requires
        s.wf(),
        calm(s),
        forall|i: int| 0 <= i < ps.len() ==> s.in_bounds(#[trigger] ps[i]),
        turns(s, t, ps),
    ensures
        t == s,
    decreases ps.len(),
{
    if ps.len() > 0 {
        let m = choose|m: SimView| turns(s, m, ps.drop_last()) && #[trigger] turn(m, t, ps.last());
        let front = ps.drop_last();
        assert forall|i: int| 0 <= i < front.len() implies s.in_bounds(#[trigger] front[i]) by {
            assert(front[i] == ps[i]);
        }
        lemma_calm_turns(s, m, front);
        lemma_calm_turn(s, t, ps.last());
    }
}

/// The positions of a row visited in a column order lie on the grid.
pub proof fn lemma_row_order_inside(s: SimView, order: Seq<usize>, y: int)
    requires
        s.wf(),
        0 <= y < s.height,
        is_order(s.width, order),
    ensures
        forall|i: int| 0 <= i < row_order(y, order).len() ==> s.in_bounds(#[trigger] row_order(y, order)[i]),
{
    let ps = row_order(y, order);
    let range = Seq::new(s.width as nat, |i: int| i as usize);
    assert forall|i: int| 0 <= i < ps.len() implies s.in_bounds(#[trigger] ps[i]) by {
        let x = order[i];
        assert(order.contains(x));
        to_multiset_contains(order, x);
        to_multiset_contains(range, x);
        let j = choose|j: int| 0 <= j < range.len() && range[j] == x;
        assert(x < s.width);
        assert(s.width <= i32::MAX) by (nonlinear_arith)
            requires
                s.width * s.height * 3 <= i32::MAX,
                s.height >= 1,
                s.width >= 0,
        ;
        assert(s.height <= i32::MAX) by (nonlinear_arith)
            requires
                s.width * s.height * 3 <= i32::MAX,
                s.width >= 1,
                s.height >= 0,
        ;
        assert(ps[i] == Vector2D { x: order[i] as i32, y: y as i32 });
    }
}

proof fn lemma_calm_rows(s: SimView, t: SimView, y: int)
    requires
        s.wf(),
        calm(s),
        y <= s.height,
        rows_played(s, t, y),
    ensures
        t == s,
    decreases y,
{
    if y > 0 {
        let m = choose|m: SimView| rows_played(s, m, y - 1) && #[trigger] row_played(m, t, y - 1);
        lemma_calm_rows(s, m, y - 1);
        let order = choose|order: Seq<usize>| is_order(s.width, order) && #[trigger] turns(s, t, row_order(y - 1, order));
        let ps = row_order(y - 1, order);
        lemma_row_order_inside(s, order, y - 1);
        lemma_calm_turns(s, t, ps);
    }
}

/// A world of still air stays as it is through a frame: nothing moves,
/// nothing burns, nothing ages.
pub proof fn lemma_calm_frame(s: SimView, t: SimView)
    requires
        s.wf(),
        calm(s),
        framed(s, t),
    ensures
        t.cells == s.cells,
{
    let m = choose|m: SimView|
        #[trigger] rows_played(s, m, s.height) && t.cells == m.cells && t.width == s.width
            && t.height == s.height;
    lemma_calm_rows(s, m, s.height);
}

/// `t` is `s` after one operation on the world, as the operations' own
/// contracts describe them: a request carried out (`apply_actions`), a
/// frame (`update`), the marks cleared (`reset_update`), two cells swapped
/// (`swap`), or one cell written (`set_cell`).
pub open spec fn one_operation(s: SimView, t: SimView) -> bool {
    ||| exists|a: Action| #[trigger] applied(s, t, a)
    ||| framed(s, t)
    ||| t.same_frame(s) && forall|y: int, x: int|
        0 <= y < s.height && 0 <= x < s.width ==> #[trigger] t.cells[y][x] == s.cells[y][x].cleared()
    ||| exists|a: Vector2D, b: Vector2D| #[trigger] s.swapped(a, b) == t
    ||| exists|p: Vector2D, c: Cell| #[trigger] s.put(p, c) == t
}

/// No operation changes the world's size: after any run of operations the
/// world is as wide and as high as it started.
pub proof fn lemma_size_kept(run: Seq<SimView>)
    requires
        run.len() >= 1,
        forall|i: int| 0 <= i < run.len() - 1 ==> one_operation(#[trigger] run[i], run[i + 1]),
    ensures
        run.last().width == run[0].width,
        run.last().height == run[0].height,
    decreases run.len(),
{
    if run.len() > 1 {
        let front = run.drop_last();
        assert forall|i: int| 0 <= i < front.len() - 1 implies one_operation(#[trigger] front[i], front[i + 1]) by {
            assert(front[i] == run[i]);
            assert(front[i + 1] == run[i + 1]);
        }
        lemma_size_kept(front);
        let s = run[run.len() - 2];
        let t = run[run.len() - 1];
        assert(one_operation(s, t));
        if exists|a: Vector2D, b: Vector2D| #[trigger] s.swapped(a, b) == t {
            let (a, b) = choose|a: Vector2D, b: Vector2D| #[trigger] s.swapped(a, b) == t;
        }
        if exists|p: Vector2D, c: Cell| #[trigger] s.put(p, c) == t {
            let (p, c) = choose|p: Vector2D, c: Cell| #[trigger] s.put(p, c) == t;
        }
    }
}

/// A cell that the world can hold: a counting-down life is never zero.
pub open spec fn storable(c: Cell) -> bool {
    c@.life != Some(0u32)
}

/// The world.
pub struct Simulation {
    dimensions: Vector2D,
    world: Vec<Vec<Cell>>,
    data: Vec<u8>,
}

impl View for Simulation {
    type V = SimView;

    closed spec fn view(&self) -> SimView {
        SimView {
            width: self.dimensions.x as int,
            height: self.dimensions.y as int,
            cells: self.world@.map_values(|r: Vec<Cell>| r@),
            data: self.data@,
        }
    }
}

impl Simulation {
    /// The rows of the view are the views of the rows.
    proof fn lemma_rows(&self)
        ensures
            self@.cells.len() == self.world@.len(),
            forall|y: int| 0 <= y < self.world@.len() ==> #[trigger] self.world@[y]@ == self@.cells[y],
    {
    }

    pub fn width(&self) -> (w: i32)
        ensures
            w == self@.width,
    {
        self.dimensions.x
    }

    pub fn height(&self) -> (h: i32)
        ensures
            h == self@.height,
    {
        self.dimensions.y
    }

    /// A world of `x` by `y` cells of air, all alike, with a blank picture.
    pub fn new(x: i32, y: i32) -> (s: Self)
        requires
            0 <= x,
            0 <= y,
            x * y * 3 <= i32::MAX,
        ensures
            s@.wf(),
            s@.width == x,
            s@.height == y,
            s@.data == Seq::new((x * y * 3) as nat, |i: int| 0u8),
            forall|j: int, i: int|
                0 <= j < y && 0 <= i < x ==> is_fresh((#[trigger] s@.cells[j][i])@, Element::Air),
            forall|j1: int, i1: int, j2: int, i2: int|
                0 <= j1 < y && 0 <= i1 < x && 0 <= j2 < y && 0 <= i2 < x ==> #[trigger] s@.cells[j1][i1]
                    == #[trigger] s@.cells[j2][i2],
    {
        let air = Cell::new(Element::Air);
        let mut world: Vec<Vec<Cell>> = Vec::new();
        let mut j: i32 = 0;
        while j < y
            invariant
                0 <= j <= y,
                0 <= x,
                world@.len() == j,
                forall|r: int| 0 <= r < j ==> (#[trigger] world@[r])@ == Seq::new(x as nat, |i: int| air),
            decreases y - j,
        {
            let mut row: Vec<Cell> = Vec::new();
            let mut i: i32 = 0;
            while i < x
                invariant
                    0 <= i <= x,
                    0 <= x,
                    row@ == Seq::new(i as nat, |k: int| air),
                decreases x - i,
            {
                row.push(air);
                i = i + 1;
                assert(row@ =~= Seq::new(i as nat, |k: int| air));
            }
            world.push(row);
            j = j + 1;
        }
        let n: usize = (x * y * 3) as usize;
        let data: Vec<u8> = vec![0u8; n];
        let s = Self { dimensions: Vector2D { x, y }, world, data };
        assert(s@.data =~= Seq::new((x * y * 3) as nat, |i: int| 0u8));
        s
    }

    /// The picture of the world: three bytes per cell, row by row, holding
    /// the cell's element, its shade and whether it changed.
    pub fn dump(&self) -> (d: &Vec<u8>)
        ensures
            d@ == self@.data,
    {
        &self.data
    }

    pub fn in_bounds(&self, position: &Vector2D) -> (b: bool)
        ensures
            b == self@.in_bounds(*position),
    {
        position.x < self.dimensions.x && position.y < self.dimensions.y && position.x >= 0
            && position.y >= 0
    }

    fn get_cell(&self, position: Vector2D) -> (c: Cell)
        requires
            self@.wf(),
            self@.in_bounds(position),
        ensures
            c == self@.cell(position),
    {
        proof { self.lemma_rows(); }
        self.world[position.y as usize][position.x as usize]
    }

    /// The element at a position of the world.
    pub fn check_cell(&self, position: Vector2D) -> (e: Element)
        requires
            self@.wf(),
            self@.in_bounds(position),
        ensures
            e == self@.element_at(position),
    {
        proof { self.lemma_rows(); }
        self.world[position.y as usize][position.x as usize].element()
    }

    /// The position reached from `from` along `direction`.
    pub fn at(&self, from: &Vector2D, direction: Direction) -> (p: Vector2D)
        requires
            fits(*from, direction.cardinal, direction.distance as int),
        ensures
            p == step_from(*from, direction.cardinal, direction.distance as int),
    {
        let factor = direction.factor();
        let d = direction.distance() as i32;
        proof {
            assert(d * factor.x == direction.distance * step_of(direction.cardinal).0) by (nonlinear_arith)
                requires d == direction.distance, factor.x == step_of(direction.cardinal).0;
            assert(d * factor.y == direction.distance * step_of(direction.cardinal).1) by (nonlinear_arith)
                requires d == direction.distance, factor.y == step_of(direction.cardinal).1;
            assert(-d <= d * factor.x <= d) by (nonlinear_arith)
                requires d >= 0, -1 <= factor.x <= 1;
            assert(-d <= d * factor.y <= d) by (nonlinear_arith)
                requires d >= 0, -1 <= factor.y <= 1;
        }
        let destination = Vector2D { x: from.x + d * factor.x, y: from.y + d * factor.y };
        destination
    }

    /// Writes a cell into the world.
    fn put_cell(&mut self, p: Vector2D, c: Cell)
        requires
            old(self)@.wf(),
            old(self)@.in_bounds(p),
            storable(c),
        ensures
            final(self)@ == old(self)@.put(p, c),
            final(self)@.wf(),
    {
        proof { self.lemma_rows(); }
        self.world[p.y as usize][p.x as usize] = c;
        proof {
            self.lemma_rows();
            assert(self@.cells =~= old(self)@.put(p, c).cells);
        }
    }

    /// The cells at `from` and `to` trade places; both are marked as
    /// changed.
    pub fn swap(&mut self, from: &Vector2D, to: &Vector2D)
        requires
            old(self)@.wf(),
            old(self)@.in_bounds(*from),
            old(self)@.in_bounds(*to),
        ensures
            final(self)@ == old(self)@.swapped(*from, *to),
            final(self)@.wf(),
    {
        let a = *from;
        let b = *to;
        let temp = self.get_cell(a);
        let other = self.get_cell(b);
        self.put_cell(a, other);
        self.put_cell(b, temp);
        let mut ca = self.get_cell(a);
        ca.set_update();
        self.put_cell(a, ca);
        let mut cb = self.get_cell(b);
        cb.set_update();
        self.put_cell(b, cb);
    }

    /// The positions next to `position`, diagonals included, that lie in
    /// the world, in compass order starting at north.
    pub fn get_neighbours(&self, position: &Vector2D) -> (r: Vec<Vector2D>)
        requires
            within_reach(*position, 1),
        ensures
            r@ == neighbours(self@.width, self@.height, *position),
    {
        let mut found: Vec<Vector2D> = Vec::new();
        let cardinals = Cardinal::iter();
        let mut k: usize = 0;
        while k < 8
            invariant
                0 <= k <= 8,
                cardinals@ == all_cardinals(),
                within_reach(*position, 1),
                found@ == neighbours_upto(self@.width, self@.height, *position, k as int),
            decreases 8 - k,
        {
            let orientation = cardinals[k];
            let destination = self.at(position, Direction::new(orientation, 1));
            if self.in_bounds(&destination) {
                found.push(destination);
            }
            k = k + 1;
        }
        found
    }

    /// Puts a new cell of the element named by the byte `element` at
    /// `(x, y)`, marked as changed.
    pub fn set_cell(&mut self, x: i32, y: i32, element: i32)
        requires
            old(self)@.wf(),
            inside(old(self)@.width, old(self)@.height, Vector2D { x, y }),
            (element as u8) < ELEMENT_COUNT,
        ensures
            final(self)@.wf(),
            final(self)@ == old(self)@.put(Vector2D { x, y }, final(self)@.cell(Vector2D { x, y })),
            is_fresh(
                CellView { updated: false, ..final(self)@.cell(Vector2D { x, y })@ },
                element_of_byte(element as u8).unwrap(),
            ),
            final(self)@.cell(Vector2D { x, y })@.updated,
    {
        let byte = element as u8;
        match Element::from_byte(byte) {
            Some(e) => {
                let mut c = Cell::new(e);
                c.set_update();
                self.put_cell(Vector2D { x, y }, c);
            },
            None => {},
        }
    }

    /// Clears every cell's mark of change.
    pub fn reset_update(&mut self)
        requires
            old(self)@.wf(),
        ensures
            final(self)@.wf(),
            final(self)@.same_frame(old(self)@),
            forall|y: int, x: int|
                0 <= y < old(self)@.height && 0 <= x < old(self)@.width
                    ==> #[trigger] final(self)@.cells[y][x] == old(self)@.cells[y][x].cleared(),
    {
        let h = self.dimensions.y;
        let w = self.dimensions.x;
        let mut y: i32 = 0;
        while y < h
            invariant
                0 <= y <= h,
                h == self@.height,
                w == self@.width,
                self@.wf(),
                self@.same_frame(old(self)@),
                old(self)@.wf(),
                forall|j: int, i: int|
                    0 <= j < h && 0 <= i < w ==> #[trigger] self@.cells[j][i] == if j < y {
                        old(self)@.cells[j][i].cleared()
                    } else {
                        old(self)@.cells[j][i]
                    },
            decreases h - y,
        {
            let mut x: i32 = 0;
            while x < w
                invariant
                    0 <= x <= w,
                    0 <= y < h,
                    h == self@.height,
                    w == self@.width,
                    self@.wf(),
                    self@.same_frame(old(self)@),
                    old(self)@.wf(),
                    forall|j: int, i: int|
                        0 <= j < h && 0 <= i < w ==> #[trigger] self@.cells[j][i] == if j < y || (j
                            == y && i < x) {
                            old(self)@.cells[j][i].cleared()
                        } else {
                            old(self)@.cells[j][i]
                        },
                decreases w - x,
            {
                let p = Vector2D { x, y };
                let mut c = self.get_cell(p);
                c.reset_update();
                self.put_cell(p, c);
                x = x + 1;
            }
            y = y + 1;
        }
    }

    /// Changes the cell at `p` as `ch` says.
    fn apply_change(&mut self, p: Vector2D, ch: Change)
        requires
            old(self)@.wf(),
            old(self)@.in_bounds(p),
        ensures
            final(self)@ == old(self)@.put(p, final(self)@.cell(p)),
            changed(old(self)@.cell(p), final(self)@.cell(p), ch),
            final(self)@.wf(),
    {
        match ch {
            Change::Keep => {
                proof {
                    assert(self@.cells[p.y as int].update(p.x as int, self@.cell(p))
                        =~= self@.cells[p.y as int]);
                    assert(self@.cells =~= self@.put(p, self@.cell(p)).cells);
                }
            },
            Change::Kindle => {
                let mut c = self.get_cell(p);
                c.set_element(Element::Ember);
                c.set_update();
                self.put_cell(p, c);
                proof {
                    lemma_put(old(self)@, p, c, p);
                }
            },
            Change::Fresh(e, m) => {
                let mut c = Cell::new(e);
                if m {
                    c.set_update();
                }
                self.put_cell(p, c);
                proof {
                    lemma_put(old(self)@, p, c, p);
                }
            },
        }
    }

    /// Walks the cell at `v` along `d` one step at a time, trading places
    /// with each cell in its way.
    fn apply_move(&mut self, v: Vector2D, d: Direction)
        requires
            old(self)@.wf(),
            d.distance == 0 || {
                &&& old(self)@.in_bounds(v)
                &&& fits(v, d.cardinal, d.distance as int)
                &&& old(self)@.in_bounds(step_from(v, d.cardinal, d.distance as int))
            },
        ensures
            final(self)@ == moved(old(self)@, v, d.cardinal, d.distance as nat),
            final(self)@.wf(),
            final(self)@.same_frame(old(self)@),
    {
        let c = d.cardinal;
        let distance = d.distance();
        let mut position = v;
        let mut i: u32 = 0;
        proof {
            if distance > 0 {
                lemma_path_inside(self@.width, self@.height, v, c, distance as int, 0);
            }
        }
        while i < distance
            invariant
                0 <= i <= distance,
                distance == d.distance,
                c == d.cardinal,
                self@.wf(),
                self@.same_frame(old(self)@),
                distance > 0 ==> {
                    &&& old(self)@.in_bounds(v)
                    &&& fits(v, c, distance as int)
                    &&& old(self)@.in_bounds(step_from(v, c, distance as int))
                    &&& position == step_from(v, c, i as int)
                },
                moved(self@, position, c, (distance - i) as nat) == moved(
                    old(self)@,
                    v,
                    c,
                    distance as nat,
                ),
            decreases distance - i,
        {
            proof {
                lemma_path_inside(old(self)@.width, old(self)@.height, v, c, distance as int, i as int);
                lemma_path_inside(
                    old(self)@.width,
                    old(self)@.height,
                    v,
                    c,
                    distance as int,
                    i + 1,
                );
                lemma_step_compose(v, c, i as int);
                lemma_step_compose(v, c, 0);
            }
            let factor = d.factor();
            let destination = Vector2D { x: position.x + factor.x, y: position.y + factor.y };
            assert(destination == step_from(position, c, 1));
            self.swap(&position, &destination);
            position = destination;
            i = i + 1;
        }
    }

    /// Draws the chances of one burn step.
    fn draw_burn_rolls(rng: &mut rand::rngs::ThreadRng, src: Element, ne: Element) -> (r: BurnRolls)
        ensures
            burn_admissible(src, ne, r),
    {
        proof {
            lemma_burn_chance_is_a_probability(ne, src);
        }
        let ignite = gen_ratio(rng, ne.flammability() * src.heat(), 10000);
        let spark = gen_ratio(rng, 1, 200);
        let spark_smoke = gen_ratio(rng, 1, 2);
        let lava_spark = gen_ratio(rng, 1, 100);
        let lava_smoke = gen_ratio(rng, 9, 10);
        let acid_gas = gen_ratio(rng, 1, 100);
        let acid_smoke = gen_ratio(rng, 1, 100);
        let catch = gen_ratio(rng, 1, 2);
        BurnRolls { ignite, spark, spark_smoke, lava_spark, lava_smoke, acid_gas, acid_smoke, catch }
    }

    /// The cell at `v` burns with the given chances, one per neighbour in
    /// compass order: one burn step on each neighbour in turn, stopping
    /// early if air catches fire.
    pub fn burn_with(&mut self, v: Vector2D, rolls: &Vec<BurnRolls>)
        requires
            old(self)@.wf(),
            old(self)@.in_bounds(v),
            rolls@.len() == neighbours(old(self)@.width, old(self)@.height, v).len(),
        ensures
            final(self)@.wf(),
            final(self)@.same_frame(old(self)@),
            exists|m: int| burn_run(old(self)@, final(self)@, v, rolls@, m),
    {
        let ghost s = self@;
        proof {
            lemma_inside_reach(s.width, s.height, v);
            lemma_neighbours_inside(s.width, s.height, v, 8);
            lemma_neighbours_distinct(s.width, s.height, v, 8);
        }
        let source = self.check_cell(v);
        let ns = self.get_neighbours(&v);
        let mut k: usize = 0;
        while k < ns.len()
            invariant
                0 <= k <= ns@.len(),
                s == old(self)@,
                s.wf(),
                s.in_bounds(v),
                ns@ == neighbours(s.width, s.height, v),
                forall|i: int| 0 <= i < ns@.len() ==> s.in_bounds(#[trigger] ns@[i]),
                forall|i: int, j: int|
                    0 <= i < j < ns@.len() ==> #[trigger] ns@[i] != #[trigger] ns@[j],
                forall|i: int| 0 <= i < ns@.len() ==> #[trigger] ns@[i] != v,
                self@.wf(),
                self@.same_frame(s),
                source == s.element_at(v),
                rolls@.len() == ns@.len(),
                forall|q: Vector2D|
                    s.in_bounds(q) && q != v && apart(q, ns@) ==> #[trigger] self@.cell(q) == s.cell(q),
                forall|j: int|
                    0 <= j < k ==> !(#[trigger] burn_outcome(source, s.element_at(ns@[j]), rolls@[j])).stop,
                forall|j: int|
                    0 <= j < k ==> changed(
                        s.cell(ns@[j]),
                        #[trigger] self@.cell(ns@[j]),
                        burn_outcome(source, s.element_at(ns@[j]), rolls@[j]).neighbour,
                    ),
                forall|j: int| k <= j < ns@.len() ==> #[trigger] self@.cell(ns@[j]) == s.cell(ns@[j]),
                changed(s.cell(v), self@.cell(v), burn_origin(s, ns@, source, rolls@, k as int)),
            decreases ns@.len() - k,
        {
            let ghost before = self@;
            let n = ns[k];
            let ne = self.check_cell(n);
            let o = burn_outcome_of(source, ne, rolls[k]);
            self.apply_change(n, o.neighbour);
            let ghost middle = self@;
            self.apply_change(v, o.origin);
            proof {
                let ki = k as int;
                assert(ne == s.element_at(ns@[ki]));
                assert(o == burn_outcome(source, s.element_at(ns@[ki]), rolls@[ki]));
                lemma_put(before, n, middle.cell(n), v);
                lemma_put(middle, v, self@.cell(v), n);
                assert forall|q: Vector2D|
                    s.in_bounds(q) && q != v && apart(q, ns@) implies #[trigger] self@.cell(q) == s.cell(q) by {
                    assert(q != ns@[ki]);
                    lemma_put(before, n, middle.cell(n), q);
                    lemma_put(middle, v, self@.cell(v), q);
                }
                assert forall|j: int| 0 <= j < ns@.len() && j != ki implies #[trigger] self@.cell(ns@[j])
                    == before.cell(ns@[j]) by {
                    lemma_put(before, n, middle.cell(n), ns@[j]);
                    lemma_put(middle, v, self@.cell(v), ns@[j]);
                }
                assert(changed(s.cell(ns@[ki]), self@.cell(ns@[ki]), o.neighbour));
                assert forall|j: int| 0 <= j < ki + 1 implies changed(
                    s.cell(ns@[j]),
                    #[trigger] self@.cell(ns@[j]),
                    burn_outcome(source, s.element_at(ns@[j]), rolls@[j]).neighbour,
                ) by {
                    if j != ki {
                        assert(self@.cell(ns@[j]) == before.cell(ns@[j]));
                    }
                }
                if o.origin != Change::Keep {
                    assert(burn_origin(s, ns@, source, rolls@, ki + 1) == o.origin);
                } else {
                    assert(burn_origin(s, ns@, source, rolls@, ki + 1) == burn_origin(s, ns@, source, rolls@, ki));
                    assert(self@.cell(v) == before.cell(v));
                }
                assert(changed(s.cell(v), self@.cell(v), burn_origin(s, ns@, source, rolls@, ki + 1)));
            }
            if o.stop {
                proof {
                    assert(burn_run(s, self@, v, rolls@, k + 1));
                }
                return ;
            }
            k = k + 1;
        }
        proof {
            assert(burn_run(s, self@, v, rolls@, ns@.len() as int));
        }
    }

    /// The cell at `v` burns: the chances of each burn step are drawn, one
    /// draw per neighbour in compass order, and the steps are taken as
    /// `burn_with` takes them.
    fn burn(&mut self, v: Vector2D)
        requires
            old(self)@.wf(),
            old(self)@.in_bounds(v),
        ensures
            final(self)@.wf(),
            final(self)@.same_frame(old(self)@),
            burned(old(self)@, final(self)@, v),
    {
        let ghost s = self@;
        proof {
            lemma_inside_reach(s.width, s.height, v);
            lemma_neighbours_inside(s.width, s.height, v, 8);
            lemma_neighbours_distinct(s.width, s.height, v, 8);
        }
        let source = self.check_cell(v);
        let ns = self.get_neighbours(&v);
        let mut rng = thread_rng();
        let mut rolls: Vec<BurnRolls> = Vec::new();
        let mut k: usize = 0;
        while k < ns.len()
            invariant
                0 <= k <= ns@.len(),
                s == old(self)@,
                s.wf(),
                s.in_bounds(v),
                ns@ == neighbours(s.width, s.height, v),
                forall|i: int| 0 <= i < ns@.len() ==> s.in_bounds(#[trigger] ns@[i]),
                forall|i: int, j: int|
                    0 <= i < j < ns@.len() ==> #[trigger] ns@[i] != #[trigger] ns@[j],
                forall|i: int| 0 <= i < ns@.len() ==> #[trigger] ns@[i] != v,
                self@.wf(),
                self@.same_frame(s),
                self@ == s,
                source == s.element_at(v),
                rolls@.len() == k,
                forall|j: int|
                    0 <= j < k ==> burn_admissible(source, s.element_at(ns@[j]), #[trigger] rolls@[j]),
            decreases ns@.len() - k,
        {
            let ne = self.check_cell(ns[k]);
            let r = Self::draw_burn_rolls(&mut rng, source, ne);
            rolls.push(r);
            k = k + 1;
        }
        self.burn_with(v, &rolls);
        proof {
            let m = choose|m: int| burn_run(s, self@, v, rolls@, m);
            assert(burn_run(s, self@, v, rolls@, m));
        }
    }

    /// Moss at `v` grows with the given picks, one per neighbour in compass
    /// order: each picked neighbour of water turns into new moss, marked.
    pub fn grow_with(&mut self, v: Vector2D, picks: &Vec<bool>)
        requires
            old(self)@.wf(),
            within_reach(v, 1),
            picks@.len() == neighbours(old(self)@.width, old(self)@.height, v).len(),
        ensures
            final(self)@.wf(),
            final(self)@.same_frame(old(self)@),
            grow_run(old(self)@, final(self)@, v, picks@),
    {
        let ghost s = self@;
        proof {
            
            lemma_neighbours_inside(s.width, s.height, v, 8);
            lemma_neighbours_distinct(s.width, s.height, v, 8);
        }
        let ns = self.get_neighbours(&v);
        let mut k: usize = 0;
        while k < ns.len()
            invariant
                0 <= k <= ns@.len(),
                s == old(self)@,
                s.wf(),
                ns@ == neighbours(s.width, s.height, v),
                forall|i: int| 0 <= i < ns@.len() ==> s.in_bounds(#[trigger] ns@[i]),
                forall|i: int, j: int|
                    0 <= i < j < ns@.len() ==> #[trigger] ns@[i] != #[trigger] ns@[j],
                forall|i: int| 0 <= i < ns@.len() ==> #[trigger] ns@[i] != v,
                self@.wf(),
                self@.same_frame(s),
                picks@.len() == ns@.len(),
                forall|q: Vector2D| s.in_bounds(q) && apart(q, ns@) ==> #[trigger] self@.cell(q) == s.cell(q),
                forall|j: int| k <= j < ns@.len() ==> #[trigger] self@.cell(ns@[j]) == s.cell(ns@[j]),
                forall|j: int|
                    0 <= j < k ==> if picks@[j] && s.element_at(ns@[j]) == Element::Water {
                        changed(s.cell(ns@[j]), #[trigger] self@.cell(ns@[j]), Change::Fresh(Element::Moss, true))
                    } else {
                        self@.cell(ns@[j]) == s.cell(ns@[j])
                    },
            decreases ns@.len() - k,
        {
            let ghost before = self@;
            let n = ns[k];
            if picks[k] {
                if self.check_cell(n) == Element::Water {
                    self.apply_change(n, Change::Fresh(Element::Moss, true));
                }
            }
            proof {
                let ki = k as int;
                lemma_put(before, n, self@.cell(n), n);
                assert forall|q: Vector2D| s.in_bounds(q) && apart(q, ns@) implies #[trigger] self@.cell(q)
                    == s.cell(q) by {
                    assert(q != ns@[ki]);
                    lemma_put(before, n, self@.cell(n), q);
                }
                assert forall|j: int| 0 <= j < ns@.len() && j != ki implies #[trigger] self@.cell(ns@[j])
                    == before.cell(ns@[j]) by {
                    lemma_put(before, n, self@.cell(n), ns@[j]);
                }
            }
            k = k + 1;
        }
    }

    /// Moss at `v` grows: each neighbour is picked by a small chance, and
    /// the picks are taken as `grow_with` takes them.
    fn grow(&mut self, v: Vector2D)
        requires
            old(self)@.wf(),
            within_reach(v, 1),
        ensures
            final(self)@.wf(),
            final(self)@.same_frame(old(self)@),
            grown(old(self)@, final(self)@, v),
    {
        let ghost s = self@;
        proof {
            
        }
        let ns = self.get_neighbours(&v);
        let mut rng = thread_rng();
        let mut picks: Vec<bool> = Vec::new();
        let mut k: usize = 0;
        while k < ns.len()
            invariant
                0 <= k <= ns@.len(),
                picks@.len() == k,
            decreases ns@.len() - k,
        {
            picks.push(gen_ratio(&mut rng, 1, 200));
            k = k + 1;
        }
        self.grow_with(v, &picks);
        proof {
            assert(grow_run(s, self@, v, picks@));
        }
    }

    /// The cell at `v` dissolves in water or, `hot`, melts beside fire or
    /// smoke, with the given picks, one per neighbour in compass order: if a
    /// picked neighbour soaks it, it turns into new water, marked.
    pub fn soak_with(&mut self, v: Vector2D, hot: bool, picks: &Vec<bool>)
        requires
            old(self)@.wf(),
            old(self)@.in_bounds(v),
            picks@.len() == neighbours(old(self)@.width, old(self)@.height, v).len(),
        ensures
            final(self)@.wf(),
            final(self)@.same_frame(old(self)@),
            soak_run(old(self)@, final(self)@, v, hot, picks@),
    {
        let ghost s = self@;
        proof {
            lemma_inside_reach(s.width, s.height, v);
            lemma_neighbours_inside(s.width, s.height, v, 8);
            lemma_neighbours_distinct(s.width, s.height, v, 8);
        }
        let ns = self.get_neighbours(&v);
        let mut k: usize = 0;
        while k < ns.len()
            invariant
                0 <= k <= ns@.len(),
                s == old(self)@,
                s.wf(),
                s.in_bounds(v),
                ns@ == neighbours(s.width, s.height, v),
                forall|i: int| 0 <= i < ns@.len() ==> s.in_bounds(#[trigger] ns@[i]),
                forall|i: int, j: int|
                    0 <= i < j < ns@.len() ==> #[trigger] ns@[i] != #[trigger] ns@[j],
                forall|i: int| 0 <= i < ns@.len() ==> #[trigger] ns@[i] != v,
                self@.wf(),
                self@.same_frame(s),
                picks@.len() == ns@.len(),
                forall|q: Vector2D| s.in_bounds(q) && q != v ==> #[trigger] self@.cell(q) == s.cell(q),
                if soaked_by(s, ns@.take(k as int), picks@, hot) {
                    changed(s.cell(v), self@.cell(v), Change::Fresh(Element::Water, true))
                } else {
                    self@.cell(v) == s.cell(v)
                },
            decreases ns@.len() - k,
        {
            let ghost before = self@;
            let n = ns[k];
            let mut wet = false;
            if picks[k] {
                let ne = self.check_cell(n);
                wet = if hot {
                    ne == Element::Fire || ne == Element::Smoke
                } else {
                    ne == Element::Water
                };
                if wet {
                    self.apply_change(v, Change::Fresh(Element::Water, true));
                }
            }
            proof {
                let ki = k as int;
                lemma_put(before, v, self@.cell(v), v);
                assert forall|q: Vector2D| s.in_bounds(q) && q != v implies #[trigger] self@.cell(q)
                    == s.cell(q) by {
                    lemma_put(before, v, self@.cell(v), q);
                }
                let pre = ns@.take(ki);
                let post = ns@.take(ki + 1);
                assert(wet == (picks@[ki] && soaks(s.element_at(ns@[ki]), hot)));
                if soaked_by(s, post, picks@, hot) {
                    if !wet {
                        let j = choose|j: int| 0 <= j < post.len() && picks@[j] && soaks(s.element_at(#[trigger] post[j]), hot);
                        assert(j != ki);
                        assert(pre[j] == post[j]);
                        assert(soaked_by(s, pre, picks@, hot));
                    }
                } else {
                    assert(!wet) by {
                        if wet {
                            assert(post[ki] == ns@[ki]);
                        }
                    }
                    assert(!soaked_by(s, pre, picks@, hot)) by {
                        if soaked_by(s, pre, picks@, hot) {
                            let j = choose|j: int| 0 <= j < pre.len() && picks@[j] && soaks(s.element_at(#[trigger] pre[j]), hot);
                            assert(post[j] == pre[j]);
                        }
                    }
                }
            }
            k = k + 1;
        }
        proof {
            assert(ns@.take(ns@.len() as int) =~= ns@);
        }
    }

    /// The cell at `v` dissolves or, `hot`, melts: each neighbour is picked
    /// by a small chance, and the picks are taken as `soak_with` takes them.
    fn soak(&mut self, v: Vector2D, hot: bool)
        requires
            old(self)@.wf(),
            old(self)@.in_bounds(v),
        ensures
            final(self)@.wf(),
            final(self)@.same_frame(old(self)@),
            soaked(old(self)@, final(self)@, v, hot),
    {
        let ghost s = self@;
        proof {
            lemma_inside_reach(s.width, s.height, v);
        }
        let ns = self.get_neighbours(&v);
        let mut rng = thread_rng();
        let mut picks: Vec<bool> = Vec::new();
        let mut k: usize = 0;
        while k < ns.len()
            invariant
                0 <= k <= ns@.len(),
                picks@.len() == k,
            decreases ns@.len() - k,
        {
            let roll = if hot {
                gen_ratio(&mut rng, 1, 10)
            } else {
                gen_ratio(&mut rng, 1, 200)
            };
            picks.push(roll);
            k = k + 1;
        }
        self.soak_with(v, hot, &picks);
        proof {
            assert(soak_run(s, self@, v, hot, picks@));
        }
    }

    /// Carries out a request on the world.
    pub fn apply_actions(&mut self, action: Action)
        requires
            old(self)@.wf(),
            valid_action(old(self)@.width, old(self)@.height, action),
        ensures
            applied(old(self)@, final(self)@, action),
    {
        match action.t {
            ActionType::Move => {
                self.apply_move(action.v, action.d);
            },
            ActionType::Eat => {
                let mut c = self.get_cell(action.v);
                c.set_element(action.e);
                self.put_cell(action.v, c);
                proof {
                    lemma_put(old(self)@, action.v, c, action.v);
                }
            },
            ActionType::Burn => {
                self.burn(action.v);
            },
            ActionType::Grow => {
                self.grow(action.v);
            },
            ActionType::Disolve => {
                self.soak(action.v, false);
            },
            ActionType::Liquidize => {
                self.soak(action.v, true);
            },
            ActionType::Die => {},
        }
    }

    /// Redraws the picture from the cells.
    fn render(&mut self)
        requires
            old(self)@.wf(),
        ensures
            final(self)@.wf(),
            final(self)@.width == old(self)@.width,
            final(self)@.height == old(self)@.height,
            final(self)@.cells == old(self)@.cells,
            encodes(final(self)@),
    {
        let h = self.dimensions.y;
        let w = self.dimensions.x;
        let mut y: i32 = 0;
        while y < h
            invariant
                0 <= y <= h,
                h == self@.height,
                w == self@.width,
                self@.wf(),
                self@.width == old(self)@.width,
                self@.height == old(self)@.height,
                self@.cells == old(self)@.cells,
                forall|yy: int, xx: int, t: int|
                    0 <= yy < y && 0 <= xx < w && 0 <= t < 3 ==> self@.data[(yy * w + xx) * 3 + t]
                        == #[trigger] pixel(self@.cells[yy][xx], t),
            decreases h - y,
        {
            let mut x: i32 = 0;
            while x < w
                invariant
                    0 <= x <= w,
                    0 <= y < h,
                    h == self@.height,
                    w == self@.width,
                    self@.wf(),
                    self@.width == old(self)@.width,
                    self@.height == old(self)@.height,
                    self@.cells == old(self)@.cells,
                    forall|yy: int, xx: int, t: int|
                        0 <= yy < h && 0 <= xx < w && 0 <= t < 3 && (yy < y || (yy == y && xx < x))
                            ==> self@.data[(yy * w + xx) * 3 + t] == #[trigger] pixel(
                            self@.cells[yy][xx],
                            t,
                        ),
                decreases w - x,
            {
                proof {
                    lemma_pixel_index(w as int, h as int, y as int, x as int);
                }
                let base: usize = ((y as usize) * (w as usize) + (x as usize)) * 3;
                let c = self.get_cell(Vector2D { x, y });
                let ghost before = self@;
                self.data[base] = c.element().to_byte();
                self.data[base + 1] = c.variant();
                self.data[base + 2] = if c.updated() {
                    1u8
                } else {
                    0u8
                };
                proof {
                    assert forall|yy: int, xx: int, t: int|
                        0 <= yy < h && 0 <= xx < w && 0 <= t < 3 && (yy < y || (yy == y && xx < x + 1))
                            implies self@.data[(yy * w + xx) * 3 + t] == #[trigger] pixel(
                            self@.cells[yy][xx],
                            t,
                        ) by {
                        lemma_pixel_index(w as int, h as int, yy, xx);
                        if yy == y && xx == x {
                            assert(base == (yy * w + xx) * 3);
                            assert(self@.cells[yy][xx] == c);
                        } else {
                            lemma_pixel_distinct(w as int, yy, xx, t, y as int, x as int, 0);
                            lemma_pixel_distinct(w as int, yy, xx, t, y as int, x as int, 1);
                            lemma_pixel_distinct(w as int, yy, xx, t, y as int, x as int, 2);
                            assert(self@.data[(yy * w + xx) * 3 + t] == before.data[(yy * w + xx) * 3 + t]);
                            assert(before.data[(yy * w + xx) * 3 + t] == pixel(before.cells[yy][xx], t));
                        }
                    }
                }
                x = x + 1;
            }
            y = y + 1;
        }
    }

    /// Advances the world by one frame. Row by row from the top, the cells
    /// of each row are visited in a random order; each visited cell's
    /// requests are carried out in turn, then the cell ages. Finally the
    /// picture is redrawn from the cells.
    pub fn update(&mut self)
        requires
            old(self)@.wf(),
        ensures
            final(self)@.wf(),
            final(self)@.width == old(self)@.width,
            final(self)@.height == old(self)@.height,
            framed(old(self)@, final(self)@),
            encodes(final(self)@),
    {
        let h = self.dimensions.y;
        let w = self.dimensions.x;
        let mut rng = thread_rng();
        let mut y: i32 = 0;
        while y < h
            invariant
                0 <= y <= h,
                h == self@.height,
                w == self@.width,
                self@.wf(),
                self@.width == old(self)@.width,
                self@.height == old(self)@.height,
                rows_played(old(self)@, self@, y as int),
            decreases h - y,
        {
            let ghost row_start = self@;
            let mut order: Vec<usize> = Vec::new();
            let mut i: usize = 0;
            while i < w as usize
                invariant
                    0 <= i <= w,
                    0 <= w,
                    order@.len() == i,
                    forall|j: int| 0 <= j < i ==> order@[j] == j,
                decreases w - i,
            {
                order.push(i);
                i = i + 1;
            }
            let ghost before = order@;
            crate::random::shuffle(&mut rng, &mut order);
            proof {
                assert forall|k: int| 0 <= k < order@.len() implies #[trigger] order@[k] < w by {
                    let x = order@[k];
                    assert(order@.contains(x));
                    to_multiset_contains(order@, x);
                    to_multiset_contains(before, x);
                    let j = choose|j: int| 0 <= j < before.len() && before[j] == x;
                }
                assert(before =~= Seq::new(w as nat, |i: int| i as usize));
                assert(is_order(w as int, order@));
                assert(row_order(y as int, order@).take(0) =~= Seq::<Vector2D>::empty());
            }
            let mut k: usize = 0;
            while k < order.len()
                invariant
                    0 <= k <= order@.len(),
                    0 <= y < h,
                    h == self@.height,
                    w == self@.width,
                    self@.wf(),
                    self@.width == old(self)@.width,
                    self@.height == old(self)@.height,
                    forall|j: int| 0 <= j < order@.len() ==> #[trigger] order@[j] < w,
                    row_start.width == w,
                    turns(row_start, self@, row_order(y as int, order@).take(k as int)),
                decreases order@.len() - k,
            {
                let ghost turn_start = self@;
                let x = order[k];
                let position = Vector2D { x: x as i32, y };
                proof {
                    lemma_inside_reach(w as int, h as int, position);
                }
                let cell = self.get_cell(position);
                let actions = cell.update(position, &*self);
                let ghost choice: (bool, u32, Direction, Seq<bool>) = choose|
                    first: bool,
                    roll: u32,
                    gas: Direction,
                    picks: Seq<bool>,
                |
                    admissible(cell@, position, self@, roll, gas, picks) && actions@ == plan(
                        cell@,
                        position,
                        self@,
                        first,
                        roll,
                        gas,
                        picks,
                    );
                proof {
                    lemma_plan_valid(cell@, position, self@, choice.0, choice.1, choice.2, choice.3);
                    assert(actions@.take(0) =~= Seq::<Action>::empty());
                }
                let mut a: usize = 0;
                while a < actions.len()
                    invariant
                        0 <= a <= actions@.len(),
                        h == self@.height,
                        w == self@.width,
                        self@.wf(),
                        self@.in_bounds(position),
                        all_valid(w as int, h as int, actions@),
                        carried(turn_start, self@, actions@.take(a as int)),
                    decreases actions@.len() - a,
                {
                    let ghost before = self@;
                    self.apply_actions(actions[a]);
                    proof {
                        assert(actions@.take(a + 1).drop_last() =~= actions@.take(a as int));
                        assert(actions@.take(a + 1).last() == actions@[a as int]);
                        assert(carried(turn_start, before, actions@.take(a + 1).drop_last()));
                        lemma_carried_step(turn_start, before, self@, actions@.take(a + 1));
                    }
                    a = a + 1;
                }
                let ghost mid = self@;
                proof {
                    assert(actions@.take(actions@.len() as int) =~= actions@);
                }
                let mut aged = self.get_cell(position);
                aged.decay();
                self.put_cell(position, aged);
                proof {
                    lemma_put(mid, position, aged, position);
                    assert(self@ == mid.put(position, self@.cell(position)));
                    assert(cell == turn_start.cell(position));
                    assert(carried(
                        turn_start,
                        mid,
                        plan(turn_start.cell(position)@, position, turn_start, choice.0, choice.1, choice.2, choice.3),
                    ));
                    assert(turn(turn_start, self@, position));
                    let ro = row_order(y as int, order@);
                    assert(ro.take(k + 1).drop_last() =~= ro.take(k as int));
                    assert(ro.take(k + 1).last() == position);
                    assert(turns(row_start, turn_start, ro.take(k + 1).drop_last()));
                    assert(turns(row_start, self@, ro.take(k + 1)));
                }
                k = k + 1;
            }
            proof {
                let ro = row_order(y as int, order@);
                assert(ro.take(order@.len() as int) =~= ro);
                assert(row_played(row_start, self@, y as int));
                assert(rows_played(old(self)@, row_start, y as int));
                let yi = y as int;
                assert(row_played(row_start, self@, (yi + 1) - 1));
                assert(rows_played(old(self)@, row_start, (yi + 1) - 1));
                assert(rows_played(old(self)@, self@, yi + 1));
            }
            y = y + 1;
        }
        let ghost played = self@;
        self.render();
        proof {
            assert(rows_played(old(self)@, played, old(self)@.height));
        }
    }

    /// The world as text: one line per row, from the top, each cell shown by
    /// its element's symbol.
    pub fn picture(&self) -> (t: String)
        requires
            self@.wf(),
        ensures
            t@ == picture_of(self@),
    {
        let h = self.dimensions.y;
        let w = self.dimensions.x;
        let mut out: Vec<char> = Vec::new();
        let mut y: i32 = 0;
        while y < h
            invariant
                0 <= y <= h,
                h == self@.height,
                w == self@.width,
                self@.wf(),
                out@ == picture_upto(self@, y as int),
            decreases h - y,
        {
            let ghost start = out@;
            let mut x: i32 = 0;
            while x < w
                invariant
                    0 <= x <= w,
                    0 <= y < h,
                    h == self@.height,
                    w == self@.width,
                    self@.wf(),
                    start == picture_upto(self@, y as int),
                    out@ == start + Seq::new(x as nat, |i: int| symbol_of(self@.cells[y as int][i]@.element)),
                decreases w - x,
            {
                let c = self.check_cell(Vector2D { x, y });
                out.push(c.symbol());
                proof {
                    assert(Seq::new((x + 1) as nat, |i: int| symbol_of(self@.cells[y as int][i]@.element))
                        =~= Seq::new(x as nat, |i: int| symbol_of(self@.cells[y as int][i]@.element)).push(symbol_of(c)));
                    assert(out@ =~= start + Seq::new((x + 1) as nat, |i: int| symbol_of(self@.cells[y as int][i]@.element)));
                }
                x = x + 1;
            }
            out.push('\n');
            proof {
                assert(out@ =~= picture_upto(self@, y + 1));
            }
            y = y + 1;
        }
        string_of(&out)
    }
}

/// In a burn, each reached neighbour of wood or coal whose chance to catch
/// came up smoulders into ember, with its life and shade kept, marked; any
/// other reached neighbour that catches becomes a new, marked fire.
pub proof fn lemma_burn_kindles(s: SimView, t: SimView, v: Vector2D, rs: Seq<BurnRolls>, m: int, j: int)
    requires
        burn_run(s, t, v, rs, m),
        0 <= j < m,
        rs[j].ignite,
    ensures
        ({
            let n = neighbours(s.width, s.height, v)[j];
            let e = s.element_at(n);
            &&& e == Element::Wood || e == Element::Coal ==> t.cell(n)@ == (CellView {
                element: Element::Ember,
                updated: true,
                ..s.cell(n)@
            })
            &&& !(e == Element::Wood || e == Element::Coal) ==> {
                &&& t.cell(n)@.element == Element::Fire
                &&& t.cell(n)@.life == Some(5u32)
                &&& t.cell(n)@.updated
            }
        }),
{
    let ns = neighbours(s.width, s.height, v);
    let n = ns[j];
    assert(changed(s.cell(n), t.cell(n), burn_outcome(s.element_at(v), s.element_at(n), rs[j]).neighbour));
    lemma_ignition(s.element_at(v), s.cell(n), rs[j], t.cell(n));
}

/// Moss grows only into water: each picked neighbour of water becomes new
/// moss, at rest and marked; every other cell, the moss itself included,
/// stays as it was.
pub proof fn lemma_moss_grows_into_water(s: SimView, t: SimView, v: Vector2D, picks: Seq<bool>, q: Vector2D)
    requires
        grow_run(s, t, v, picks),
        s.in_bounds(q),
    ensures
        ({
            let ns = neighbours(s.width, s.height, v);
            if exists|j: int| 0 <= j < ns.len() && picks[j] && #[trigger] ns[j] == q && s.element_at(q) == Element::Water {
                &&& t.cell(q)@.element == Element::Moss
                &&& t.cell(q)@.life is None
                &&& t.cell(q)@.velocity == crate::cell::zero()
                &&& t.cell(q)@.updated
            } else {
                t.cell(q) == s.cell(q)
            }
        }),
{
    let ns = neighbours(s.width, s.height, v);
    if exists|j: int| 0 <= j < ns.len() && picks[j] && #[trigger] ns[j] == q && s.element_at(q) == Element::Water {
        let j = choose|j: int| 0 <= j < ns.len() && picks[j] && #[trigger] ns[j] == q && s.element_at(q) == Element::Water;
        assert(changed(s.cell(ns[j]), t.cell(ns[j]), Change::Fresh(Element::Moss, true)));
    } else if !apart(q, ns) {
        let j = choose|j: int| 0 <= j < ns.len() && q == #[trigger] ns[j];
        assert(t.cell(ns[j]) == s.cell(ns[j]));
    }
}

/// Salt dissolves in water and ice melts beside fire or smoke: where a
/// picked neighbour holds water (or, `hot`, fire or smoke), the cell at `v`
/// becomes new water, at rest and marked. Where no picked neighbour does,
/// it stays as it was. Every other cell stays as it was.
pub proof fn lemma_soak_makes_water(s: SimView, t: SimView, v: Vector2D, hot: bool, picks: Seq<bool>)
    requires
        soak_run(s, t, v, hot, picks),
    ensures
        ({
            let ns = neighbours(s.width, s.height, v);
            let wets = |e: Element| if hot {
                e == Element::Fire || e == Element::Smoke
            } else {
                e == Element::Water
            };
            &&& (exists|j: int| 0 <= j < ns.len() && picks[j] && wets(s.element_at(#[trigger] ns[j])))
                ==> {
                &&& t.cell(v)@.element == Element::Water
                &&& t.cell(v)@.life is None
                &&& t.cell(v)@.velocity == crate::cell::zero()
                &&& t.cell(v)@.updated
            }
            &&& (forall|j: int| 0 <= j < ns.len() && picks[j] ==> !wets(s.element_at(#[trigger] ns[j])))
                ==> t.cell(v) == s.cell(v)
            &&& forall|q: Vector2D| s.in_bounds(q) && q != v ==> #[trigger] t.cell(q) == s.cell(q)
        }),
{
    let ns = neighbours(s.width, s.height, v);
    if exists|j: int| 0 <= j < ns.len() && picks[j] && soaks(s.element_at(#[trigger] ns[j]), hot) {
        let j = choose|j: int| 0 <= j < ns.len() && picks[j] && soaks(s.element_at(#[trigger] ns[j]), hot);
        assert(soaked_by(s, ns, picks, hot));
    }
}

/// The picture shows each cell in its three bytes: its element's byte, its
/// shade, and 1 if it changed in this frame, else 0.
pub proof fn lemma_picture_bytes(s: SimView, y: int, x: int)
    requires
        encodes(s),
        0 <= y < s.height,
        0 <= x < s.width,
    ensures
        s.data[(y * s.width + x) * 3] == byte_of(s.cells[y][x]@.element),
        s.data[(y * s.width + x) * 3 + 1] == s.cells[y][x]@.variant,
        s.data[(y * s.width + x) * 3 + 2] == if s.cells[y][x]@.updated { 1u8 } else { 0u8 },
{
    assert(pixel(s.cells[y][x], 0) == s.data[(y * s.width + x) * 3 + 0]);
    assert(pixel(s.cells[y][x], 1) == s.data[(y * s.width + x) * 3 + 1]);
    assert(pixel(s.cells[y][x], 2) == s.data[(y * s.width + x) * 3 + 2]);
}

} // verus!
