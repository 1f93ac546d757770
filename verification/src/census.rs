//! Counting the cells of each element, and the law that a frame of settling
//! matter (air, sand, water and stone) only rearranges the cells.

use vstd::prelude::*;
use crate::{Action, Cell, Direction, Element, SimView, Vector2D};
use crate::action::{ActionType, move_action};
use crate::cell::{admissible, decayed, falling, first_move, flowing, plan, scan, group_cell_views};
use crate::direction::Cardinal;
use crate::grid::{fits, lemma_path_inside, lemma_step_compose, step_from};
use crate::simulation::{
    all_valid, applied, carried, framed, is_order, lemma_plan_valid, lemma_put,
    lemma_row_order_inside, lemma_swapped, moved, row_order, row_played, rows_played, turn, turns,
};

verus! {

broadcast use group_cell_views;

/// 1 if the cell holds `e`, else 0.
pub open spec fn holds(c: Cell, e: Element) -> nat {
    if c@.element == e {
        1
    } else {
        0
    }
}

/// The number of cells of element `e` in a row.
pub open spec fn row_count(r: Seq<Cell>, e: Element) -> nat
    decreases r.len(),
{
    if r.len() == 0 {
        0
    } else {
        row_count(r.drop_last(), e) + holds(r.last(), e)
    }
}

/// The number of cells of element `e` in the rows.
pub open spec fn grid_count(rows: Seq<Seq<Cell>>, e: Element) -> nat
    decreases rows.len(),
{
    if rows.len() == 0 {
        0
    } else {
        grid_count(rows.drop_last(), e) + row_count(rows.last(), e)
    }
}

/// The number of cells of element `e` in the world.
pub open spec fn census(s: SimView, e: Element) -> nat {
    grid_count(s.cells, e)
}

proof fn lemma_row_update(r: Seq<Cell>, i: int, c: Cell, e: Element)
    requires
        0 <= i < r.len(),
    ensures
        row_count(r.update(i, c), e) + holds(r[i], e) == row_count(r, e) + holds(c, e),
    decreases r.len(),
{
    let u = r.update(i, c);
    if i == r.len() - 1 {
        assert(u.drop_last() =~= r.drop_last());
    } else {
        assert(u.drop_last() =~= r.drop_last().update(i, c));
        lemma_row_update(r.drop_last(), i, c, e);
    }
}

proof fn lemma_grid_update(rows: Seq<Seq<Cell>>, y: int, row: Seq<Cell>, e: Element)
    requires
        0 <= y < rows.len(),
    ensures
        grid_count(rows.update(y, row), e) + row_count(rows[y], e) == grid_count(rows, e)
            + row_count(row, e),
    decreases rows.len(),
{
    let u = rows.update(y, row);
    if y == rows.len() - 1 {
        assert(u.drop_last() =~= rows.drop_last());
    } else {
        assert(u.drop_last() =~= rows.drop_last().update(y, row));
        lemma_grid_update(rows.drop_last(), y, row, e);
    }
}

/// Writing a cell changes the count of an element by what it removes and
/// what it adds.
proof fn lemma_put_count(s: SimView, p: Vector2D, c: Cell, e: Element)
    requires
        s.wf(),
        s.in_bounds(p),
    ensures
        census(s.put(p, c), e) + holds(s.cell(p), e) == census(s, e) + holds(c, e),
{
    let row = s.cells[p.y as int];
    lemma_row_update(row, p.x as int, c, e);
    lemma_grid_update(s.cells, p.y as int, row.update(p.x as int, c), e);
}

/// Trading two cells keeps every count.
proof fn lemma_swap_count(s: SimView, a: Vector2D, b: Vector2D, e: Element)
    requires
        s.wf(),
        s.in_bounds(a),
        s.in_bounds(b),
    ensures
        census(s.swapped(a, b), e) == census(s, e),
{
    let ca = s.cell(a);
    let cb = s.cell(b);
    let s1 = s.put(a, cb);
    lemma_put_count(s, a, cb, e);
    lemma_put(s, a, cb, a);
    lemma_put(s, a, cb, b);
    let s2 = s1.put(b, ca);
    lemma_put_count(s1, b, ca, e);
    lemma_put(s1, b, ca, a);
    lemma_put(s1, b, ca, b);
    let s3 = s2.put(a, s2.cell(a).marked());
    lemma_put_count(s2, a, s2.cell(a).marked(), e);
    lemma_put(s2, a, s2.cell(a).marked(), b);
    lemma_put_count(s3, b, s3.cell(b).marked(), e);
}

proof fn lemma_scan_moves(
    elem: Element,
    from: Vector2D,
    c: Cardinal,
    i: int,
    dist: int,
    sim: SimView,
    found: Option<Action>,
)
    requires
        found matches Some(a) ==> a.t == ActionType::Move,
    ensures
        scan(elem, from, c, i, dist, sim, found) matches Some(a) ==> a.t == ActionType::Move,
    decreases dist + 1 - i,
{
    if 1 <= i <= dist {
        lemma_scan_moves(elem, from, c, i + 1, dist, sim, found);
        lemma_scan_moves(
            elem,
            from,
            c,
            i + 1,
            dist,
            sim,
            Some(move_action(from, Direction { cardinal: c, distance: i as u32 })),
        );
    }
}

proof fn lemma_first_move_moves(elem: Element, from: Vector2D, dirs: Seq<Direction>, sim: SimView)
    ensures
        first_move(elem, from, dirs, sim) matches Some(a) ==> a.t == ActionType::Move,
    decreases dirs.len(),
{
    if dirs.len() > 0 {
        lemma_scan_moves(elem, from, dirs[0].cardinal, 1, dirs[0].distance as int, sim, None);
        lemma_first_move_moves(elem, from, dirs.drop_first(), sim);
    }
}

/// A cell of settling matter: air, sand, water or stone, with no life.
pub open spec fn settling(c: Cell) -> bool {
    &&& (c@.element == Element::Air || c@.element == Element::Sand || c@.element == Element::Water
        || c@.element == Element::Stone)
    &&& c@.life is None
}

/// Every cell of the world is settling matter.
pub open spec fn all_settling(s: SimView) -> bool {
    forall|y: int, x: int|
        0 <= y < s.height && 0 <= x < s.width ==> settling(#[trigger] s.cells[y][x])
}

proof fn lemma_swap_settling(s: SimView, a: Vector2D, b: Vector2D)
    requires
        s.wf(),
        s.in_bounds(a),
        s.in_bounds(b),
        all_settling(s),
    ensures
        all_settling(s.swapped(a, b)),
{
    let t = s.swapped(a, b);
    assert forall|y: int, x: int| 0 <= y < t.height && 0 <= x < t.width implies settling(
        #[trigger] t.cells[y][x],
    ) by {
        assert(s.width <= i32::MAX) by (nonlinear_arith)
            requires
                s.width * s.height * 3 <= i32::MAX,
                s.height >= 1,
                s.width >= 0,
        ;
        assert(s.height <= i32::MAX) by (nonlinear_arith)
            requires
                s.width * s.height * 3 <= i32::MAX,
                s.width >= 1,
                s.height >= 0,
        ;
        let q = Vector2D { x: x as i32, y: y as i32 };
        lemma_swapped(s, a, b, q);
        assert(t.cells[y][x] == t.cell(q));
        assert(s.cells[a.y as int][a.x as int] == s.cell(a));
        assert(s.cells[b.y as int][b.x as int] == s.cell(b));
    }
}

/// A move keeps every count, and keeps the world settling matter.
proof fn lemma_moved_count(s: SimView, v: Vector2D, c: Cardinal, k: nat, e: Element)
    requires
        s.wf(),
        all_settling(s),
        k == 0 || {
            &&& s.in_bounds(v)
            &&& fits(v, c, k as int)
            &&& s.in_bounds(step_from(v, c, k as int))
        },
    ensures
        census(moved(s, v, c, k), e) == census(s, e),
        all_settling(moved(s, v, c, k)),
        moved(s, v, c, k).wf(),
        moved(s, v, c, k).same_frame(s),
    decreases k,
{
    if k > 0 {
        let v1 = step_from(v, c, 1);
        lemma_path_inside(s.width, s.height, v, c, k as int, 1);
        lemma_swapped(s, v, v1, v);
        lemma_swap_count(s, v, v1, e);
        lemma_swap_settling(s, v, v1);
        let s1 = s.swapped(v, v1);
        if k > 1 {
            lemma_step_compose(v, c, k - 1);
        }
        lemma_moved_count(s1, v1, c, (k - 1) as nat, e);
    }
}

/// The requests of a settling cell's plan keep every count, and keep the
/// world settling matter.
proof fn lemma_settling_turn(s: SimView, t: SimView, p: Vector2D, e: Element)
    requires
        s.wf(),
        all_settling(s),
        s.in_bounds(p),
        turn(s, t, p),
    ensures
        census(t, e) == census(s, e),
        all_settling(t),
        t.wf(),
        t.same_frame(s),
{
    let (first, roll, gas, picks, m) = choose|first: bool, roll: u32, gas: Direction, picks: Seq<bool>, m: SimView|
        #![trigger carried(s, m, plan(s.cell(p)@, p, s, first, roll, gas, picks))]
        {
            &&& admissible(s.cell(p)@, p, s, roll, gas, picks)
            &&& carried(s, m, plan(s.cell(p)@, p, s, first, roll, gas, picks))
            &&& decayed(m.cell(p), t.cell(p))
            &&& t == m.put(p, t.cell(p))
        };
    let acts = plan(s.cell(p)@, p, s, first, roll, gas, picks);
    assert(settling(s.cells[p.y as int][p.x as int]));
    lemma_plan_valid(s.cell(p)@, p, s, first, roll, gas, picks);
    lemma_first_move_moves(s.cell(p)@.element, p, falling(), s);
    lemma_first_move_moves(s.cell(p)@.element, p, flowing(first, 3), s);
    assert(acts.len() <= 1);
    if acts.len() == 0 {
        assert(m == s);
    } else {
        let a = acts[0];
        assert(acts.drop_last().len() == 0);
        assert(acts.last() == a);
        assert(a.t == ActionType::Move);
        assert(all_valid(s.width, s.height, acts));
        assert(crate::simulation::valid_action(s.width, s.height, acts[0]));
        let m0 = choose|m0: SimView| carried(s, m0, acts.drop_last()) && #[trigger] applied(m0, m, acts.last());
        assert(m0 == s);
        assert(m == moved(s, a.v, a.d.cardinal, a.d.distance as nat));
        lemma_moved_count(s, a.v, a.d.cardinal, a.d.distance as nat, e);
    }
    assert(settling(m.cells[p.y as int][p.x as int]));
    assert(t.cell(p) == m.cell(p));
    assert(m.cells[p.y as int].update(p.x as int, m.cell(p)) =~= m.cells[p.y as int]);
    assert(m.put(p, m.cell(p)).cells =~= m.cells);
    assert(t == m);
}

proof fn lemma_settling_turns(s: SimView, t: SimView, ps: Seq<Vector2D>, e: Element)
    requires
        s.wf(),
        all_settling(s),
        forall|i: int| 0 <= i < ps.len() ==> s.in_bounds(#[trigger] ps[i]),
        turns(s, t, ps),
    ensures
        census(t, e) == census(s, e),
        all_settling(t),
        t.wf(),
        t.same_frame(s),
    decreases ps.len(),
{
    if ps.len() > 0 {
        let m = choose|m: SimView| turns(s, m, ps.drop_last()) && #[trigger] turn(m, t, ps.last());
        let front = ps.drop_last();
        assert forall|i: int| 0 <= i < front.len() implies s.in_bounds(#[trigger] front[i]) by {
            assert(front[i] == ps[i]);
        }
        lemma_settling_turns(s, m, front, e);
        lemma_settling_turn(m, t, ps.last(), e);
    }
}

proof fn lemma_settling_rows(s: SimView, t: SimView, y: int, e: Element)
    requires
        s.wf(),
        all_settling(s),
        y <= s.height,
        rows_played(s, t, y),
    ensures
        census(t, e) == census(s, e),
        all_settling(t),
        t.wf(),
        t.same_frame(s),
    decreases y,
{
    if y > 0 {
        let m = choose|m: SimView| rows_played(s, m, y - 1) && #[trigger] row_played(m, t, y - 1);
        lemma_settling_rows(s, m, y - 1, e);
        let order = choose|order: Seq<usize>| is_order(m.width, order) && #[trigger] turns(m, t, row_order(y - 1, order));
        lemma_row_order_inside(m, order, y - 1);
        lemma_settling_turns(m, t, row_order(y - 1, order), e);
    }
}

/// A frame of a world of settling matter (air, sand, water and stone, none
/// with a life) only rearranges its cells: the number of cells of each
/// element stays the same, and the world is still settling matter.
pub proof fn lemma_settling_frame(s: SimView, t: SimView, e: Element)
    requires
        s.wf(),
        all_settling(s),
        framed(s, t),
    ensures
        census(t, e) == census(s, e),
        all_settling(t),
{
    let m = choose|m: SimView|
        #[trigger] rows_played(s, m, s.height) && t.cells == m.cells && t.width == s.width
            && t.height == s.height;
    lemma_settling_rows(s, m, s.height, e);
}

} // verus!
