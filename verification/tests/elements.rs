use falling_sand::element::ELEMENT_COUNT;
use falling_sand::{Cardinal, Direction, Element, Vector2D};

#[test]
fn every_byte_below_the_count_names_an_element_and_round_trips() {
    for b in 0..ELEMENT_COUNT {
        let e = Element::from_byte(b).expect("named");
        assert_eq!(e.to_byte(), b);
    }
}

#[test]
fn bytes_past_the_count_name_nothing() {
    assert_eq!(Element::from_byte(ELEMENT_COUNT), None);
    assert_eq!(Element::from_byte(200), None);
    assert_eq!(Element::from_byte(255), None);
}

#[test]
fn named_bytes() {
    assert_eq!(Element::Air.to_byte(), 0);
    assert_eq!(Element::Sand.to_byte(), 2);
    assert_eq!(Element::Water.to_byte(), 3);
    assert_eq!(Element::CanonPowder.to_byte(), 17);
    assert_eq!(Element::from_byte(12), Some(Element::Lava));
}

#[test]
fn densities_order_matter() {
    assert!(Element::Sand.density() > Element::Water.density());
    assert!(Element::Water.density() > Element::Oil.density());
    assert!(Element::Smoke.density() < Element::Air.density());
    assert!(Element::Fire.density() < Element::Air.density());
    assert_eq!(Element::Water.density(), 100);
}

#[test]
fn solids() {
    assert!(Element::Stone.solid());
    assert!(Element::Wood.solid());
    assert!(Element::Ice.solid());
    assert!(!Element::Water.solid());
    assert!(!Element::Air.solid());
}

#[test]
fn burn_chances_are_probabilities() {
    for a in 0..ELEMENT_COUNT {
        for b in 0..ELEMENT_COUNT {
            let fuel = Element::from_byte(a).unwrap();
            let source = Element::from_byte(b).unwrap();
            assert!(fuel.flammability() * source.heat() <= 10000);
        }
    }
    assert_eq!(Element::Wood.flammability(), 20);
    assert_eq!(Element::Lava.heat(), 100);
    assert_eq!(Element::Air.heat(), 0);
}

#[test]
fn eat_chances() {
    assert_eq!(Element::Water.eat_chance(), (20, 300));
    assert_eq!(Element::Stone.eat_chance(), (20, 900));
    assert_eq!(Element::Fire.eat_chance(), (1, 1));
    for b in 0..ELEMENT_COUNT {
        let (n, d) = Element::from_byte(b).unwrap().eat_chance();
        assert!(d > 0 && n <= d);
    }
}

#[test]
fn symbols_differ() {
    let mut seen = Vec::new();
    for b in 0..ELEMENT_COUNT {
        let c = Element::from_byte(b).unwrap().symbol();
        assert!(!seen.contains(&c));
        seen.push(c);
    }
    assert_eq!(Element::Air.symbol(), ' ');
}

#[test]
fn cardinal_steps() {
    assert_eq!(Cardinal::N.factor(), Vector2D { x: 0, y: -1 });
    assert_eq!(Cardinal::SE.factor(), Vector2D { x: 1, y: 1 });
    assert_eq!(Cardinal::W.factor(), Vector2D { x: -1, y: 0 });
    assert_eq!(Cardinal::NW.factor(), Vector2D { x: -1, y: -1 });
}

#[test]
fn cardinals_in_compass_order() {
    let all = Cardinal::iter();
    assert_eq!(
        all,
        vec![
            Cardinal::N,
            Cardinal::NE,
            Cardinal::E,
            Cardinal::SE,
            Cardinal::S,
            Cardinal::SW,
            Cardinal::W,
            Cardinal::NW
        ]
    );
    for i in 0..8u32 {
        assert_eq!(Cardinal::from_index(i), all[i as usize]);
    }
}

#[test]
fn directions() {
    let mut d = Direction::new(Cardinal::S, 3);
    assert_eq!(d.distance(), 3);
    assert_eq!(d.factor(), Vector2D { x: 0, y: 1 });
    d.set_distance(1);
    assert_eq!(d, Direction { cardinal: Cardinal::S, distance: 1 });
    let r = Direction::new_rng(2);
    assert_eq!(r.distance, 2);
}
