//! What burning does to one neighbour of a burning cell, and to the burning
//! cell itself, given the outcomes of the chances involved.

use vstd::prelude::*;
use crate::{Cell, CellView, Element};
use crate::cell::{is_fresh, zero};
use crate::element::{flammability_of, heat_of};

verus! {

/// The outcomes of the chances of one burn step: whether the neighbour
/// catches fire; whether an ember's spark lands in air and whether it turns
/// to smoke rather than fire; the same for lava; whether acid fumes become
/// gas and then smoke; and whether air next to fire catches.
#[derive(Clone, Copy, Debug, PartialEq, Eq, Structural)]
pub struct BurnRolls {
    pub ignite: bool,
    pub spark: bool,
    pub spark_smoke: bool,
    pub lava_spark: bool,
    pub lava_smoke: bool,
    pub acid_gas: bool,
    pub acid_smoke: bool,
    pub catch: bool,
}

/// What happens to a cell: nothing; it turns to ember, keeping its life and
/// shade, marked as changed; or it is replaced by a new cell of an element,
/// marked as changed or not.
#[derive(Clone, Copy, Debug, PartialEq, Eq, Structural)]
pub enum Change {
    Keep,
    Kindle,
    Fresh(Element, bool),
}

/// The effect of one burn step on the neighbour and on the burning cell,
/// and whether burning stops there.
#[derive(Clone, Copy, Debug, PartialEq, Eq, Structural)]
pub struct BurnOutcome {
    pub neighbour: Change,
    pub origin: Change,
    pub stop: bool,
}

/// The element a cell of element `e` holds after a change.
pub open spec fn element_after(e: Element, ch: Change) -> Element {
    match ch {
        Change::Keep => e,
        Change::Kindle => Element::Ember,
        Change::Fresh(f, _) => f,
    }
}

/// `after` is `before` changed by `ch`.
pub open spec fn changed(before: Cell, after: Cell, ch: Change) -> bool {
    match ch {
        Change::Keep => after == before,
        Change::Kindle => after == before.with_element(Element::Ember).marked(),
        Change::Fresh(e, m) => is_fresh(CellView { updated: false, ..after@ }, e) && after@.updated
            == m,
    }
}

/// One burn step of a cell of element `src` on a neighbour of element `ne`.
/// In order: the neighbour may catch fire (wood and coal smoulder into
/// ember, anything else bursts into flame); an ember may throw a spark of
/// fire or smoke into neighbouring air, and turns to coal next to water;
/// lava turns itself and neighbouring water to stone, melts ice into water,
/// and may throw smoke or fire into air; acid may fume gas and then smoke
/// into air; air next to fire may catch, which ends the burning.
pub open spec fn burn_outcome(src: Element, ne: Element, r: BurnRolls) -> BurnOutcome {
    let n1 = if r.ignite {
        if ne == Element::Wood || ne == Element::Coal {
            Change::Kindle
        } else {
            Change::Fresh(Element::Fire, true)
        }
    } else {
        Change::Keep
    };
    let e1 = element_after(ne, n1);
    let n2 = if src == Element::Ember && e1 == Element::Air && r.spark {
        Change::Fresh(if r.spark_smoke { Element::Smoke } else { Element::Fire }, true)
    } else {
        n1
    };
    let e2 = element_after(ne, n2);
    let o3 = if src == Element::Ember && e2 == Element::Water {
        Change::Fresh(Element::Coal, true)
    } else {
        Change::Keep
    };
    let lava = src == Element::Lava;
    let quench = lava && e2 == Element::Water;
    let n4 = if quench { Change::Fresh(Element::Stone, true) } else { n2 };
    let o4 = if quench { Change::Fresh(Element::Stone, true) } else { o3 };
    let e4 = element_after(ne, n4);
    let n5 = if lava && e4 == Element::Ice { Change::Fresh(Element::Water, true) } else { n4 };
    let e5 = element_after(ne, n5);
    let n6 = if lava && e5 == Element::Air && r.lava_spark {
        Change::Fresh(if r.lava_smoke { Element::Smoke } else { Element::Fire }, true)
    } else {
        n5
    };
    let e6 = element_after(ne, n6);
    let fume = src == Element::Acid && e6 == Element::Air;
    let n7 = if fume && r.acid_gas { Change::Fresh(Element::Gas, false) } else { n6 };
    let n8 = if fume && r.acid_smoke { Change::Fresh(Element::Smoke, false) } else { n7 };
    let e8 = element_after(ne, n8);
    let catch = src == Element::Air && e8 == Element::Fire && r.catch;
    BurnOutcome {
        neighbour: n8,
        origin: if catch { Change::Fresh(Element::Fire, false) } else { o4 },
        stop: catch,
    }
}

/// Chances that can come out as in `r`: a neighbour catches fire only where
/// its flammability and the source's heat are both above zero.
pub open spec fn burn_admissible(src: Element, ne: Element, r: BurnRolls) -> bool {
    r.ignite ==> flammability_of(ne) * heat_of(src) > 0
}

fn after(e: Element, ch: Change) -> (r: Element)
    ensures
        r == element_after(e, ch),
{
    match ch {
        Change::Keep => e,
        Change::Kindle => Element::Ember,
        Change::Fresh(f, _) => f,
    }
}

/// One burn step, as `burn_outcome` describes it.
pub fn burn_outcome_of(src: Element, ne: Element, r: BurnRolls) -> (o: BurnOutcome)
    ensures
        o == burn_outcome(src, ne, r),
{
    let n1 = if r.ignite {
        if ne == Element::Wood || ne == Element::Coal {
            Change::Kindle
        } else {
            Change::Fresh(Element::Fire, true)
        }
    } else {
        Change::Keep
    };
    let e1 = after(ne, n1);
    let n2 = if src == Element::Ember && e1 == Element::Air && r.spark {
        Change::Fresh(if r.spark_smoke { Element::Smoke } else { Element::Fire }, true)
    } else {
        n1
    };
    let e2 = after(ne, n2);
    let o3 = if src == Element::Ember && e2 == Element::Water {
        Change::Fresh(Element::Coal, true)
    } else {
        Change::Keep
    };
    let lava = src == Element::Lava;
    let quench = lava && e2 == Element::Water;
    let n4 = if quench { Change::Fresh(Element::Stone, true) } else { n2 };
    let o4 = if quench { Change::Fresh(Element::Stone, true) } else { o3 };
    let e4 = after(ne, n4);
    let n5 = if lava && e4 == Element::Ice { Change::Fresh(Element::Water, true) } else { n4 };
    let e5 = after(ne, n5);
    let n6 = if lava && e5 == Element::Air && r.lava_spark {
        Change::Fresh(if r.lava_smoke { Element::Smoke } else { Element::Fire }, true)
    } else {
        n5
    };
    let e6 = after(ne, n6);
    let fume = src == Element::Acid && e6 == Element::Air;
    let n7 = if fume && r.acid_gas { Change::Fresh(Element::Gas, false) } else { n6 };
    let n8 = if fume && r.acid_smoke { Change::Fresh(Element::Smoke, false) } else { n7 };
    let e8 = after(ne, n8);
    let catch = src == Element::Air && e8 == Element::Fire && r.catch;
    BurnOutcome {
        neighbour: n8,
        origin: if catch { Change::Fresh(Element::Fire, false) } else { o4 },
        stop: catch,
    }
}

/// A neighbour of wood or coal that catches fire smoulders: whatever burns
/// beside it, the step turns it to ember, keeping its life and shade and
/// marking it, leaves the burning cell as it is and does not stop the
/// burning. Any other neighbour that catches bursts into a new, marked
/// fire.
pub proof fn lemma_ignition(src: Element, ne: Cell, r: BurnRolls, after: Cell)
    requires
        r.ignite,
        changed(ne, after, burn_outcome(src, ne@.element, r).neighbour),
    ensures
        ne@.element == Element::Wood || ne@.element == Element::Coal ==> {
            &&& burn_outcome(src, ne@.element, r).neighbour == Change::Kindle
            &&& burn_outcome(src, ne@.element, r).origin == Change::Keep
            &&& !burn_outcome(src, ne@.element, r).stop
            &&& after@ == (CellView { element: Element::Ember, updated: true, ..ne@ })
        },
        !(ne@.element == Element::Wood || ne@.element == Element::Coal) ==> {
            &&& burn_outcome(src, ne@.element, r).neighbour == Change::Fresh(Element::Fire, true)
            &&& after@.element == Element::Fire
            &&& after@.life == Some(5u32)
            &&& after@.velocity == zero()
            &&& after@.updated
        },
{
    broadcast use crate::cell::group_cell_views;

}

/// A burn step in which the neighbour does not catch: an ember throws its
/// spark into air and turns to coal beside water; lava turns itself and
/// water beside it to stone, melts ice into water and throws its spark into
/// air; acid fumes smoke, or else gas, into air; air beside fire catches
/// and ends the burning; any other pair is left as it is. Only the last
/// case stops the burning.
pub proof fn lemma_burn_without_ignition(src: Element, ne: Element, r: BurnRolls)
    requires
        !r.ignite,
    ensures
        ({
            let o = burn_outcome(src, ne, r);
            &&& o.stop == (src == Element::Air && ne == Element::Fire && r.catch)
            &&& src == Element::Ember ==> {
                &&& o.neighbour == if ne == Element::Air && r.spark {
                    Change::Fresh(if r.spark_smoke { Element::Smoke } else { Element::Fire }, true)
                } else {
                    Change::Keep
                }
                &&& o.origin == if ne == Element::Water {
                    Change::Fresh(Element::Coal, true)
                } else {
                    Change::Keep
                }
            }
            &&& src == Element::Lava ==> {
                &&& o.neighbour == if ne == Element::Water {
                    Change::Fresh(Element::Stone, true)
                } else if ne == Element::Ice {
                    Change::Fresh(Element::Water, true)
                } else if ne == Element::Air && r.lava_spark {
                    Change::Fresh(if r.lava_smoke { Element::Smoke } else { Element::Fire }, true)
                } else {
                    Change::Keep
                }
                &&& o.origin == if ne == Element::Water {
                    Change::Fresh(Element::Stone, true)
                } else {
                    Change::Keep
                }
            }
            &&& src == Element::Acid ==> {
                &&& o.neighbour == if ne == Element::Air && r.acid_smoke {
                    Change::Fresh(Element::Smoke, false)
                } else if ne == Element::Air && r.acid_gas {
                    Change::Fresh(Element::Gas, false)
                } else {
                    Change::Keep
                }
                &&& o.origin == Change::Keep
            }
            &&& src == Element::Air ==> {
                &&& o.neighbour == Change::Keep
                &&& o.origin == if ne == Element::Fire && r.catch {
                    Change::Fresh(Element::Fire, false)
                } else {
                    Change::Keep
                }
            }
            &&& !(src == Element::Ember || src == Element::Lava || src == Element::Acid || src
                == Element::Air) ==> o.neighbour == Change::Keep && o.origin == Change::Keep
        }),
{
}

} // verus!
