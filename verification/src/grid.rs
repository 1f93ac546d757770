//! Positions on the grid: stepping along a cardinal, staying on the grid,
//! and the neighbours of a position.

use vstd::prelude::*;
use crate::Vector2D;
use crate::direction::{Cardinal, all_cardinals, step_of};

verus! {

/// The position `d` steps from `from` along `c`, as exact integers.
pub open spec fn offset(from: Vector2D, c: Cardinal, d: int) -> (int, int) {
    (from.x + d * step_of(c).0, from.y + d * step_of(c).1)
}

/// The position `d` steps away can be computed without overflow.
pub open spec fn fits(from: Vector2D, c: Cardinal, d: int) -> bool {
    &&& 0 <= d <= i32::MAX
    &&& i32::MIN <= offset(from, c, d).0 <= i32::MAX
    &&& i32::MIN <= offset(from, c, d).1 <= i32::MAX
}

/// The position `d` steps from `from` along `c`.
pub open spec fn step_from(from: Vector2D, c: Cardinal, d: int) -> Vector2D {
    Vector2D { x: offset(from, c, d).0 as i32, y: offset(from, c, d).1 as i32 }
}

/// Every position up to `d` steps away in any direction can be computed.
pub open spec fn within_reach(p: Vector2D, d: int) -> bool {
    &&& i32::MIN + d <= p.x <= i32::MAX - d
    &&& i32::MIN + d <= p.y <= i32::MAX - d
}

/// Any position within `reach` steps of a position that is within `reach`
/// of the edge of the integers can be computed.
pub proof fn lemma_fits(from: Vector2D, c: Cardinal, d: int, reach: int)
    requires
        within_reach(from, reach),
        0 <= d <= reach,
    ensures
        fits(from, c, d),
{
    match c {
        Cardinal::N => {},
        Cardinal::NE => {},
        Cardinal::E => {},
        Cardinal::SE => {},
        Cardinal::S => {},
        Cardinal::SW => {},
        Cardinal::W => {},
        Cardinal::NW => {},
    }
}

/// Every shorter walk along the same cardinal can be computed too.
pub proof fn lemma_fits_between(from: Vector2D, c: Cardinal, d: int, i: int)
    requires
        fits(from, c, d),
        0 <= i <= d,
    ensures
        fits(from, c, i),
{
    match c {
        Cardinal::N => {},
        Cardinal::NE => {},
        Cardinal::E => {},
        Cardinal::SE => {},
        Cardinal::S => {},
        Cardinal::SW => {},
        Cardinal::W => {},
        Cardinal::NW => {},
    }
}

/// `p` lies on a grid of width `w` and height `h`.
pub open spec fn inside(w: int, h: int, p: Vector2D) -> bool {
    0 <= p.x < w && 0 <= p.y < h
}

/// The neighbours among the first `k` cardinals, in compass order.
pub open spec fn neighbours_upto(w: int, h: int, p: Vector2D, k: int) -> Seq<Vector2D>
    decreases k,
{
    if k <= 0 {
        seq![]
    } else {
        let prev = neighbours_upto(w, h, p, k - 1);
        let q = step_from(p, all_cardinals()[k - 1], 1);
        if inside(w, h, q) {
            prev.push(q)
        } else {
            prev
        }
    }
}

/// The positions next to `p`, diagonals included, that lie on the grid, in
/// compass order starting at north.
pub open spec fn neighbours(w: int, h: int, p: Vector2D) -> Seq<Vector2D> {
    neighbours_upto(w, h, p, 8)
}

/// The first `k` neighbours lie on the grid, and there are at most `k`.
pub proof fn lemma_neighbours_inside(w: int, h: int, p: Vector2D, k: int)
    ensures
        neighbours_upto(w, h, p, k).len() <= if k < 0 { 0 } else { k },
        forall|i: int|
            0 <= i < neighbours_upto(w, h, p, k).len() ==> inside(
                w,
                h,
                #[trigger] neighbours_upto(w, h, p, k)[i],
            ),
    decreases k,
{
    if k > 0 {
        lemma_neighbours_inside(w, h, p, k - 1);
    }
}



/// A straight walk that starts and ends on the grid stays on it, and each
/// of its steps can be computed.
pub proof fn lemma_path_inside(w: int, h: int, p: Vector2D, c: Cardinal, d: int, j: int)
    requires
        inside(w, h, p),
        fits(p, c, d),
        inside(w, h, step_from(p, c, d)),
        0 <= j <= d,
    ensures
        fits(p, c, j),
        inside(w, h, step_from(p, c, j)),
{
    match c {
        Cardinal::N => {},
        Cardinal::NE => {},
        Cardinal::E => {},
        Cardinal::SE => {},
        Cardinal::S => {},
        Cardinal::SW => {},
        Cardinal::W => {},
        Cardinal::NW => {},
    }
}

/// One step and then `j` more along the same cardinal is `j + 1` steps.
pub proof fn lemma_step_compose(p: Vector2D, c: Cardinal, j: int)
    requires
        0 <= j,
        fits(p, c, j + 1),
    ensures
        fits(step_from(p, c, 1), c, j),
        step_from(step_from(p, c, 1), c, j) == step_from(p, c, j + 1),
{
    match c {
        Cardinal::N => {},
        Cardinal::NE => {},
        Cardinal::E => {},
        Cardinal::SE => {},
        Cardinal::S => {},
        Cardinal::SW => {},
        Cardinal::W => {},
        Cardinal::NW => {},
    }
}

/// Different numbers of steps along a cardinal reach different places.
pub proof fn lemma_step_distinct(p: Vector2D, c: Cardinal, i: int, j: int)
    requires
        fits(p, c, i),
        fits(p, c, j),
        i != j,
    ensures
        step_from(p, c, i) != step_from(p, c, j),
{
    match c {
        Cardinal::N => {},
        Cardinal::NE => {},
        Cardinal::E => {},
        Cardinal::SE => {},
        Cardinal::S => {},
        Cardinal::SW => {},
        Cardinal::W => {},
        Cardinal::NW => {},
    }
}

/// No step reaches the starting place.
pub proof fn lemma_step_moves(p: Vector2D, c: Cardinal, i: int)
    requires
        fits(p, c, i),
        i != 0,
    ensures
        step_from(p, c, i) != p,
{
    match c {
        Cardinal::N => {},
        Cardinal::NE => {},
        Cardinal::E => {},
        Cardinal::SE => {},
        Cardinal::S => {},
        Cardinal::SW => {},
        Cardinal::W => {},
        Cardinal::NW => {},
    }
}

/// One step along two different cardinals reaches two different places.
pub proof fn lemma_cardinals_distinct(p: Vector2D, m: int, n: int)
    requires
        within_reach(p, 1),
        0 <= m < 8,
        0 <= n < 8,
        m != n,
    ensures
        step_from(p, all_cardinals()[m], 1) != step_from(p, all_cardinals()[n], 1),
{
}

/// The first `k` neighbours are one step from `p` along distinct cardinals
/// among the first `k`: they differ from each other and from `p`.
pub proof fn lemma_neighbours_distinct(w: int, h: int, p: Vector2D, k: int)
    requires
        within_reach(p, 1),
        0 <= k <= 8,
    ensures
        forall|i: int|
            0 <= i < neighbours_upto(w, h, p, k).len() ==> exists|m: int|
                0 <= m < k && #[trigger] neighbours_upto(w, h, p, k)[i] == step_from(
                    p,
                    all_cardinals()[m],
                    1,
                ),
        forall|i: int, j: int|
            0 <= i < j < neighbours_upto(w, h, p, k).len() ==> #[trigger] neighbours_upto(
                w,
                h,
                p,
                k,
            )[i] != #[trigger] neighbours_upto(w, h, p, k)[j],
        forall|i: int|
            0 <= i < neighbours_upto(w, h, p, k).len() ==> #[trigger] neighbours_upto(w, h, p, k)[i]
                != p,
    decreases k,
{
    if k > 0 {
        lemma_neighbours_distinct(w, h, p, k - 1);
        let prev = neighbours_upto(w, h, p, k - 1);
        let q = step_from(p, all_cardinals()[k - 1], 1);
        let cur = neighbours_upto(w, h, p, k);
        assert forall|i: int| 0 <= i < prev.len() implies prev[i] != q by {
            let m = choose|m: int| 0 <= m < k - 1 && prev[i] == step_from(p, all_cardinals()[m], 1);
            lemma_cardinals_distinct(p, m, k - 1);
        }
        lemma_fits(p, all_cardinals()[k - 1], 1, 1);
        lemma_step_moves(p, all_cardinals()[k - 1], 1);
        assert forall|i: int| 0 <= i < cur.len() implies exists|m: int|
            0 <= m < k && #[trigger] cur[i] == step_from(p, all_cardinals()[m], 1) by {
            if i < prev.len() {
                assert(cur[i] == prev[i]);
                let m = choose|m: int| 0 <= m < k - 1 && prev[i] == step_from(p, all_cardinals()[m], 1);
                assert(cur[i] == step_from(p, all_cardinals()[m], 1));
            } else {
                assert(cur[i] == q);
                assert(cur[i] == step_from(p, all_cardinals()[k - 1], 1));
            }
        }
        assert forall|i: int, j: int| 0 <= i < j < cur.len() implies #[trigger] cur[i] != #[trigger] cur[j] by {
            if j < prev.len() {
                assert(cur[i] == prev[i]);
                assert(cur[j] == prev[j]);
            } else {
                assert(cur[j] == q);
                assert(cur[i] == prev[i]);
            }
        }
        assert forall|i: int| 0 <= i < cur.len() implies #[trigger] cur[i] != p by {
            if i < prev.len() {
                assert(cur[i] == prev[i]);
            } else {
                assert(cur[i] == q);
            }
        }
    }
}

/// Every cell of a world that fits the index arithmetic is at least three
/// steps from the edge of the integers.
pub proof fn lemma_inside_reach(w: int, h: int, p: Vector2D)
    requires
        0 <= w,
        0 <= h,
        w * h * 3 <= i32::MAX,
        inside(w, h, p),
    ensures
        within_reach(p, 3),
{
    assert(w * 3 <= i32::MAX) by (nonlinear_arith)
        requires
            w * h * 3 <= i32::MAX,
            h >= 1,
            w >= 0,
    ;
    assert(h * 3 <= i32::MAX) by (nonlinear_arith)
        requires
            w * h * 3 <= i32::MAX,
            w >= 1,
            h >= 0,
    ;
}


/// Positions next to each other: different, and at most one step apart
/// along each axis.
pub open spec fn adjacent(p: Vector2D, q: Vector2D) -> bool {
    &&& q != p
    &&& -1 <= q.x - p.x <= 1
    &&& -1 <= q.y - p.y <= 1
}

/// A step along a cardinal among the first `k` that stays on the grid is
/// among the first `k` neighbours.
proof fn lemma_neighbours_reach(w: int, h: int, p: Vector2D, m: int, k: int)
    requires
        0 <= m < k <= 8,
        inside(w, h, step_from(p, all_cardinals()[m], 1)),
    ensures
        neighbours_upto(w, h, p, k).contains(step_from(p, all_cardinals()[m], 1)),
    decreases k,
{
    let q = step_from(p, all_cardinals()[m], 1);
    let cur = neighbours_upto(w, h, p, k);
    if m == k - 1 {
        assert(cur.last() == q);
        assert(cur[cur.len() - 1] == q);
    } else {
        lemma_neighbours_reach(w, h, p, m, k - 1);
        let prev = neighbours_upto(w, h, p, k - 1);
        let i = choose|i: int| 0 <= i < prev.len() && prev[i] == q;
        assert(cur[i] == q);
    }
}

/// The neighbours of `p` are exactly the positions on the grid next to it.
pub proof fn lemma_neighbours_exact(w: int, h: int, p: Vector2D, q: Vector2D)
    requires
        within_reach(p, 1),
    ensures
        neighbours(w, h, p).contains(q) <==> inside(w, h, q) && adjacent(p, q),
{
    lemma_neighbours_inside(w, h, p, 8);
    lemma_neighbours_distinct(w, h, p, 8);
    let ns = neighbours(w, h, p);
    if ns.contains(q) {
        let i = choose|i: int| 0 <= i < ns.len() && ns[i] == q;
        assert(inside(w, h, ns[i]));
        let m = choose|m: int| 0 <= m < 8 && ns[i] == step_from(p, all_cardinals()[m], 1);
    }
    if inside(w, h, q) && adjacent(p, q) {
        let dx = q.x - p.x;
        let dy = q.y - p.y;
        let m: int = if dx == 0 && dy == -1 {
            0
        } else if dx == 1 && dy == -1 {
            1
        } else if dx == 1 && dy == 0 {
            2
        } else if dx == 1 && dy == 1 {
            3
        } else if dx == 0 && dy == 1 {
            4
        } else if dx == -1 && dy == 1 {
            5
        } else if dx == -1 && dy == 0 {
            6
        } else {
            7
        };
        assert(step_from(p, all_cardinals()[m], 1) == q);
        lemma_neighbours_reach(w, h, p, m, 8);
    }
}

} // verus!
