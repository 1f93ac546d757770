//! The materials a cell can hold and their physical properties.

use vstd::prelude::*;

verus! {

/// The material of a cell.
#[derive(Clone, Copy, Debug, PartialEq, Eq, Structural)]
pub enum Element {
    Air,
    Stone,
    Sand,
    Water,
    Wood,
    Fire,
    Smoke,
    Ember,
    Cinder,
    Coal,
    Oil,
    Acid,
    Lava,
    Salt,
    Moss,
    Ice,
    Gas,
    CanonPowder,
}

/// The number of elements; the bytes `0..ELEMENT_COUNT` name them.
pub const ELEMENT_COUNT: u8 = 18;

/// The byte that names an element on the wire.
pub open spec fn byte_of(e: Element) -> u8 {
    match e {
        Element::Air => 0,
        Element::Stone => 1,
        Element::Sand => 2,
        Element::Water => 3,
        Element::Wood => 4,
        Element::Fire => 5,
        Element::Smoke => 6,
        Element::Ember => 7,
        Element::Cinder => 8,
        Element::Coal => 9,
        Element::Oil => 10,
        Element::Acid => 11,
        Element::Lava => 12,
        Element::Salt => 13,
        Element::Moss => 14,
        Element::Ice => 15,
        Element::Gas => 16,
        Element::CanonPowder => 17,
    }
}

/// The element a byte names, if any.
pub open spec fn element_of_byte(b: u8) -> Option<Element> {
    if b == 0 {
        Some(Element::Air)
    } else if b == 1 {
        Some(Element::Stone)
    } else if b == 2 {
        Some(Element::Sand)
    } else if b == 3 {
        Some(Element::Water)
    } else if b == 4 {
        Some(Element::Wood)
    } else if b == 5 {
        Some(Element::Fire)
    } else if b == 6 {
        Some(Element::Smoke)
    } else if b == 7 {
        Some(Element::Ember)
    } else if b == 8 {
        Some(Element::Cinder)
    } else if b == 9 {
        Some(Element::Coal)
    } else if b == 10 {
        Some(Element::Oil)
    } else if b == 11 {
        Some(Element::Acid)
    } else if b == 12 {
        Some(Element::Lava)
    } else if b == 13 {
        Some(Element::Salt)
    } else if b == 14 {
        Some(Element::Moss)
    } else if b == 15 {
        Some(Element::Ice)
    } else if b == 16 {
        Some(Element::Gas)
    } else if b == 17 {
        Some(Element::CanonPowder)
    } else {
        None
    }
}

/// Density in hundredths of that of water. Lighter matter rises through
/// heavier matter, heavier matter sinks through lighter.
pub open spec fn density_of(e: Element) -> u32 {
    match e {
        Element::Air => 10,
        Element::Stone => 300,
        Element::Sand => 160,
        Element::Water => 100,
        Element::Wood => 60,
        Element::Fire => 1,
        Element::Smoke => 2,
        Element::Ember => 100,
        Element::Cinder => 150,
        Element::Coal => 140,
        Element::Oil => 80,
        Element::Acid => 110,
        Element::Lava => 250,
        Element::Salt => 210,
        Element::Moss => 120,
        Element::Ice => 90,
        Element::Gas => 3,
        Element::CanonPowder => 170,
    }
}

/// Solid matter stops anything that moves into it.
pub open spec fn is_solid(e: Element) -> bool {
    match e {
        Element::Stone | Element::Wood | Element::Ember | Element::Coal | Element::Moss
        | Element::Ice => true,
        _ => false,
    }
}

/// The chance, in percent, that the element catches fire from a source of
/// full heat.
pub open spec fn flammability_of(e: Element) -> u32 {
    match e {
        Element::Wood => 20,
        Element::Coal => 10,
        Element::Oil => 50,
        Element::Gas => 80,
        Element::Moss => 10,
        Element::CanonPowder => 90,
        _ => 0,
    }
}

/// How strongly, in percent, the element sets its neighbours alight.
pub open spec fn heat_of(e: Element) -> u32 {
    match e {
        Element::Fire => 50,
        Element::Lava => 100,
        Element::Ember => 30,
        _ => 0,
    }
}

/// The chance that acid eats a neighbour of this element, as a ratio
/// `(numerator, denominator)`: one fifth divided by three times the density
/// (in units of water), or certainty where that exceeds one.
pub open spec fn eat_chance_of(e: Element) -> (u32, u32) {
    if 3 * density_of(e) >= 20 {
        (20, (3 * density_of(e)) as u32)
    } else {
        (1, 1)
    }
}

impl Element {
    /// The byte that names this element.
    pub fn to_byte(&self) -> (b: u8)
        ensures
            b == byte_of(*self),
            b < ELEMENT_COUNT,
    {
        match self {
            Element::Air => 0,
            Element::Stone => 1,
            Element::Sand => 2,
            Element::Water => 3,
            Element::Wood => 4,
            Element::Fire => 5,
            Element::Smoke => 6,
            Element::Ember => 7,
            Element::Cinder => 8,
            Element::Coal => 9,
            Element::Oil => 10,
            Element::Acid => 11,
            Element::Lava => 12,
            Element::Salt => 13,
            Element::Moss => 14,
            Element::Ice => 15,
            Element::Gas => 16,
            Element::CanonPowder => 17,
        }
    }

    /// The element named by a byte; `None` for bytes that name none.
    pub fn from_byte(b: u8) -> (r: Option<Element>)
        ensures
            r == element_of_byte(b),
            r is Some <==> b < ELEMENT_COUNT,
    {
        match b {
            0 => Some(Element::Air),
            1 => Some(Element::Stone),
            2 => Some(Element::Sand),
            3 => Some(Element::Water),
            4 => Some(Element::Wood),
            5 => Some(Element::Fire),
            6 => Some(Element::Smoke),
            7 => Some(Element::Ember),
            8 => Some(Element::Cinder),
            9 => Some(Element::Coal),
            10 => Some(Element::Oil),
            11 => Some(Element::Acid),
            12 => Some(Element::Lava),
            13 => Some(Element::Salt),
            14 => Some(Element::Moss),
            15 => Some(Element::Ice),
            16 => Some(Element::Gas),
            17 => Some(Element::CanonPowder),
            _ => None,
        }
    }

    /// Density in hundredths of that of water.
    pub fn density(&self) -> (d: u32)
        ensures
            d == density_of(*self),
            d > 0,
    {
        match self {
            Element::Air => 10,
            Element::Stone => 300,
            Element::Sand => 160,
            Element::Water => 100,
            Element::Wood => 60,
            Element::Fire => 1,
            Element::Smoke => 2,
            Element::Ember => 100,
            Element::Cinder => 150,
            Element::Coal => 140,
            Element::Oil => 80,
            Element::Acid => 110,
            Element::Lava => 250,
            Element::Salt => 210,
            Element::Moss => 120,
            Element::Ice => 90,
            Element::Gas => 3,
            Element::CanonPowder => 170,
        }
    }

    /// Whether the element stops whatever moves into it.
    pub fn solid(&self) -> (s: bool)
        ensures
            s == is_solid(*self),
    {
        match self {
            Element::Stone | Element::Wood | Element::Ember | Element::Coal | Element::Moss
            | Element::Ice => true,
            _ => false,
        }
    }

    /// The chance, in percent, that the element catches fire.
    pub fn flammability(&self) -> (f: u32)
        ensures
            f == flammability_of(*self),
            f <= 100,
    {
        match self {
            Element::Wood => 20,
            Element::Coal => 10,
            Element::Oil => 50,
            Element::Gas => 80,
            Element::Moss => 10,
            Element::CanonPowder => 90,
            _ => 0,
        }
    }

    /// How strongly, in percent, the element sets its neighbours alight.
    pub fn heat(&self) -> (h: u32)
        ensures
            h == heat_of(*self),
            h <= 100,
    {
        match self {
            Element::Fire => 50,
            Element::Lava => 100,
            Element::Ember => 30,
            _ => 0,
        }
    }

    /// The chance that acid eats a neighbour of this element.
    pub fn eat_chance(&self) -> (r: (u32, u32))
        ensures
            r == eat_chance_of(*self),
            0 < r.1,
            r.0 <= r.1,
    {
        let d = self.density();
        if 3 * d >= 20 {
            (20, 3 * d)
        } else {
            (1, 1)
        }
    }

    /// The character that shows this element in a text picture of the world.
    pub fn symbol(&self) -> (c: char)
        ensures
            c == symbol_of(*self),
    {
        match self {
            Element::Air => ' ',
            Element::Stone => '#',
            Element::Sand => '.',
            Element::Water => '~',
            Element::Wood => 'W',
            Element::Fire => '^',
            Element::Smoke => '%',
            Element::Ember => '*',
            Element::Cinder => ',',
            Element::Coal => 'C',
            Element::Oil => 'o',
            Element::Acid => 'a',
            Element::Lava => 'L',
            Element::Salt => 's',
            Element::Moss => 'm',
            Element::Ice => 'I',
            Element::Gas => 'g',
            Element::CanonPowder => 'p',
        }
    }
}

/// The character that shows an element in a text picture of the world.
pub open spec fn symbol_of(e: Element) -> char {
    match e {
        Element::Air => ' ',
        Element::Stone => '#',
        Element::Sand => '.',
        Element::Water => '~',
        Element::Wood => 'W',
        Element::Fire => '^',
        Element::Smoke => '%',
        Element::Ember => '*',
        Element::Cinder => ',',
        Element::Coal => 'C',
        Element::Oil => 'o',
        Element::Acid => 'a',
        Element::Lava => 'L',
        Element::Salt => 's',
        Element::Moss => 'm',
        Element::Ice => 'I',
        Element::Gas => 'g',
        Element::CanonPowder => 'p',
    }
}

/// Every element is named by exactly one byte: decoding the byte of an
/// element gives the element back.
pub proof fn lemma_byte_round_trip(e: Element)
    ensures
        element_of_byte(byte_of(e)) == Some(e),
        byte_of(e) < ELEMENT_COUNT,
{
}

/// Every byte that names an element is that element's byte.
pub proof fn lemma_byte_names_once(b: u8)
    requires
        b < ELEMENT_COUNT,
    ensures
        element_of_byte(b) is Some,
        byte_of(element_of_byte(b).unwrap()) == b,
{
}

/// The chance that a source sets a fuel alight, flammability times heat in
/// hundredths of a percent, never exceeds certainty.
pub proof fn lemma_burn_chance_is_a_probability(fuel: Element, source: Element)
    ensures
        flammability_of(fuel) * heat_of(source) <= 10000,
{
    assert(flammability_of(fuel) <= 100);
    assert(heat_of(source) <= 100);
    assert(flammability_of(fuel) * heat_of(source) <= 100 * 100) by (nonlinear_arith)
        requires
            flammability_of(fuel) <= 100,
            heat_of(source) <= 100,
    ;
}

} // verus!
