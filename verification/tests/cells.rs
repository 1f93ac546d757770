use falling_sand::reaction::{burn_outcome_of, BurnRolls, Change};
use falling_sand::{Action, ActionType, Cardinal, Cell, Direction, Element, Simulation, Vector2D};

fn v(x: i32, y: i32) -> Vector2D {
    Vector2D { x, y }
}

fn quiet() -> BurnRolls {
    BurnRolls {
        ignite: false,
        spark: false,
        spark_smoke: false,
        lava_spark: false,
        lava_smoke: false,
        acid_gas: false,
        acid_smoke: false,
        catch: false,
    }
}

#[test]
fn action_constructors() {
    let m = Action::new_move(v(1, 2), Direction::new(Cardinal::S, 3));
    assert!(matches!(m.t, ActionType::Move));
    assert_eq!(m.v, v(1, 2));
    assert_eq!(m.d, Direction::new(Cardinal::S, 3));
    assert_eq!(m.e, Element::Air);
    let b = Action::new_burn(v(0, 0));
    assert!(matches!(b.t, ActionType::Burn));
    assert_eq!(b.e, Element::Fire);
    assert_eq!(b.d, Direction::new(Cardinal::N, 0));
    let e = Action::new_eat(v(3, 3), Element::Air);
    assert!(matches!(e.t, ActionType::Eat));
    assert_eq!(e.e, Element::Air);
    let d = Action::new_die(v(3, 3), Element::Stone);
    assert!(matches!(d.t, ActionType::Die));
    assert_eq!(d.e, Element::Stone);
    assert!(matches!(Action::new_grow(v(0, 1)).t, ActionType::Grow));
    assert!(matches!(Action::new_disolve(v(0, 1)).t, ActionType::Disolve));
    assert!(matches!(Action::new_liquidize(v(0, 1)).t, ActionType::Liquidize));
}

#[test]
fn new_cells_are_at_rest_and_unmarked() {
    for b in 0..18u8 {
        let e = Element::from_byte(b).unwrap();
        let c = Cell::new(e);
        assert_eq!(c.element(), e);
        assert_eq!(c.get_element(), e);
        assert_eq!(c.get_velocity(), v(0, 0));
        assert!(!c.updated());
    }
}

#[test]
fn new_cell_lives() {
    assert_eq!(Cell::new(Element::Air).get_life(), None);
    assert_eq!(Cell::new(Element::Sand).get_life(), None);
    assert_eq!(Cell::new(Element::Fire).get_life(), Some(5));
    assert_eq!(Cell::new(Element::Smoke).get_life(), Some(20));
    for _ in 0..50 {
        let w = Cell::new(Element::Wood).get_life().unwrap();
        assert!((150..=300).contains(&w));
        let c = Cell::new(Element::Coal).get_life().unwrap();
        assert!((500..=650).contains(&c));
        let a = Cell::new(Element::Acid).get_life().unwrap();
        assert!((200..=2000).contains(&a));
    }
}

#[test]
fn setters_and_getters() {
    let mut c = Cell::new(Element::Sand);
    c.set_update();
    assert!(c.updated());
    c.reset_update();
    assert!(!c.updated());
    c.set_element(Element::Water);
    assert_eq!(c.element(), Element::Water);
    c.set_velocity(v(2, -1));
    assert_eq!(c.get_velocity(), v(2, -1));
    c.set_life(Some(7));
    assert_eq!(c.get_life(), Some(7));
    let shade = c.variant();
    c.set_element(Element::Oil);
    assert_eq!(c.variant(), shade);
}

#[test]
fn fire_burns_down() {
    let mut c = Cell::new(Element::Fire);
    c.decay();
    assert_eq!(c.get_life(), Some(4));
    assert_eq!(c.element(), Element::Fire);
    assert!(!c.updated());
}

#[test]
fn spent_fire_becomes_marked_air() {
    let mut c = Cell::new(Element::Fire);
    c.set_life(Some(1));
    c.decay();
    assert_eq!(c.element(), Element::Air);
    assert_eq!(c.get_life(), None);
    assert!(c.updated());
}

#[test]
fn spent_ember_becomes_air_or_cinder() {
    for _ in 0..20 {
        let mut c = Cell::new(Element::Ember);
        c.set_life(Some(1));
        c.decay();
        assert!(c.element() == Element::Air || c.element() == Element::Cinder);
        assert!(c.updated());
        assert_eq!(c.get_life(), None);
    }
}

#[test]
fn lasting_lives_do_not_count_down() {
    let mut c = Cell::new(Element::Wood);
    c.set_life(Some(200));
    c.decay();
    assert_eq!(c.get_life(), Some(200));
    assert_eq!(c.element(), Element::Wood);
    let mut a = Cell::new(Element::Air);
    a.decay();
    assert_eq!(a.element(), Element::Air);
    assert!(!a.updated());
}

#[test]
fn a_lasting_life_of_one_still_ends() {
    let mut c = Cell::new(Element::Wood);
    c.set_life(Some(1));
    c.decay();
    assert_eq!(c.element(), Element::Air);
    assert!(c.updated());
}

#[test]
fn sand_falls_two() {
    let sim = Simulation::new(3, 4);
    let c = Cell::new(Element::Sand);
    let actions = c.update(v(1, 0), &sim);
    assert_eq!(actions, vec![Action::new_move(v(1, 0), Direction::new(Cardinal::S, 2))]);
}

#[test]
fn sand_slides_off_stone() {
    let mut sim = Simulation::new(3, 3);
    sim.set_cell(1, 1, 1);
    sim.set_cell(0, 1, 1);
    let c = Cell::new(Element::Sand);
    let actions = c.update(v(1, 0), &sim);
    assert_eq!(actions, vec![Action::new_move(v(1, 0), Direction::new(Cardinal::SE, 1))]);
}

#[test]
fn sand_on_the_floor_rests() {
    let sim = Simulation::new(3, 3);
    let c = Cell::new(Element::Sand);
    assert!(c.update(v(1, 2), &sim).is_empty());
}

#[test]
fn sand_sinks_through_water_not_sand() {
    let mut sim = Simulation::new(1, 4);
    sim.set_cell(0, 1, 3);
    sim.set_cell(0, 2, 2);
    let c = Cell::new(Element::Sand);
    assert_eq!(
        c.update(v(0, 0), &sim),
        vec![Action::new_move(v(0, 0), Direction::new(Cardinal::S, 1))]
    );
}

#[test]
fn water_falls_three() {
    let sim = Simulation::new(3, 5);
    let c = Cell::new(Element::Water);
    assert_eq!(
        c.update(v(1, 0), &sim),
        vec![Action::new_move(v(1, 0), Direction::new(Cardinal::S, 3))]
    );
}

#[test]
fn water_on_the_floor_flows_sideways() {
    let sim = Simulation::new(3, 1);
    let c = Cell::new(Element::Water);
    let first = c.update_with(v(1, 0), &sim, true, 0, Direction::new(Cardinal::N, 1), &vec![]);
    assert_eq!(first, vec![Action::new_move(v(1, 0), Direction::new(Cardinal::E, 1))]);
    let second = c.update_with(v(1, 0), &sim, false, 0, Direction::new(Cardinal::N, 1), &vec![]);
    assert_eq!(second, vec![Action::new_move(v(1, 0), Direction::new(Cardinal::W, 1))]);
}

#[test]
fn still_elements_ask_for_their_reaction() {
    let sim = Simulation::new(3, 3);
    let at = v(1, 1);
    assert_eq!(Cell::new(Element::Ember).update(at, &sim), vec![Action::new_burn(at)]);
    assert_eq!(Cell::new(Element::Moss).update(at, &sim), vec![Action::new_grow(at)]);
    assert_eq!(Cell::new(Element::Ice).update(at, &sim), vec![Action::new_liquidize(at)]);
    assert!(Cell::new(Element::Stone).update(at, &sim).is_empty());
    assert!(Cell::new(Element::Air).update(at, &sim).is_empty());
    assert!(Cell::new(Element::Wood).update(at, &sim).is_empty());
}

#[test]
fn salt_on_the_floor_dissolves() {
    let sim = Simulation::new(3, 3);
    let at = v(1, 2);
    assert_eq!(Cell::new(Element::Salt).update(at, &sim), vec![Action::new_disolve(at)]);
}

#[test]
fn fire_burns_then_flickers() {
    let sim = Simulation::new(3, 3);
    let at = v(1, 1);
    let fire = Cell::new(Element::Fire);
    let up = fire.update_with(at, &sim, false, 9, Direction::new(Cardinal::N, 1), &vec![]);
    assert_eq!(
        up,
        vec![Action::new_burn(at), Action::new_move(at, Direction::new(Cardinal::N, 1))]
    );
    let east = fire.update_with(at, &sim, false, 0, Direction::new(Cardinal::N, 1), &vec![]);
    // flame is lighter than air, so it cannot push air aside
    assert_eq!(east, vec![Action::new_burn(at)]);
    let some = fire.update(at, &sim);
    assert_eq!(some[0], Action::new_burn(at));
}

#[test]
fn smoke_rises_and_spreads() {
    let sim = Simulation::new(3, 3);
    let at = v(1, 1);
    let smoke = Cell::new(Element::Smoke);
    let acts = smoke.update_with(at, &sim, true, 0, Direction::new(Cardinal::N, 1), &vec![]);
    assert_eq!(
        acts,
        vec![
            Action::new_move(at, Direction::new(Cardinal::N, 1)),
            Action::new_move(at, Direction::new(Cardinal::NE, 1)),
        ]
    );
}

#[test]
fn oil_lets_vapour_up() {
    let sim = Simulation::new(3, 3);
    let at = v(1, 2);
    let acts = Cell::new(Element::Oil).update_with(at, &sim, true, 0, Direction::new(Cardinal::N, 1), &vec![]);
    assert_eq!(
        acts,
        vec![Action::new_burn(v(1, 1)), Action::new_move(at, Direction::new(Cardinal::E, 1))]
    );
}

#[test]
fn gas_drifts_into_air() {
    let sim = Simulation::new(5, 5);
    let at = v(2, 2);
    let acts = Cell::new(Element::Gas).update_with(at, &sim, true, 0, Direction::new(Cardinal::NW, 2), &vec![]);
    assert_eq!(acts, vec![Action::new_move(at, Direction::new(Cardinal::NW, 2))]);
}

#[test]
fn acid_bites_what_it_picks() {
    let mut sim = Simulation::new(3, 3);
    sim.set_cell(1, 0, 1); // stone above
    sim.set_cell(0, 1, 4); // wood to the west
    let at = v(1, 1);
    let ns = sim.get_neighbours(&at);
    let picks: Vec<bool> = ns.iter().map(|_| true).collect();
    let acts = Cell::new(Element::Acid).update_with(at, &sim, true, 0, Direction::new(Cardinal::N, 1), &picks);
    assert_eq!(
        acts,
        vec![
            Action::new_move(at, Direction::new(Cardinal::S, 1)),
            Action::new_eat(v(1, 0), Element::Air),
            Action::new_eat(v(0, 1), Element::Air),
            Action::new_burn(at),
        ]
    );
    let none: Vec<bool> = ns.iter().map(|_| false).collect();
    let calm = Cell::new(Element::Acid).update_with(at, &sim, true, 0, Direction::new(Cardinal::N, 1), &none);
    assert_eq!(
        calm,
        vec![Action::new_move(at, Direction::new(Cardinal::S, 1)), Action::new_burn(at)]
    );
}

#[test]
fn burn_steps() {
    let r = BurnRolls { ignite: true, ..quiet() };
    let wood = burn_outcome_of(Element::Fire, Element::Wood, r);
    assert_eq!(wood.neighbour, Change::Kindle);
    assert_eq!(wood.origin, Change::Keep);
    assert!(!wood.stop);
    let oil = burn_outcome_of(Element::Fire, Element::Oil, r);
    assert_eq!(oil.neighbour, Change::Fresh(Element::Fire, true));
    let quench = burn_outcome_of(Element::Lava, Element::Water, quiet());
    assert_eq!(quench.neighbour, Change::Fresh(Element::Stone, true));
    assert_eq!(quench.origin, Change::Fresh(Element::Stone, true));
    let melt = burn_outcome_of(Element::Lava, Element::Ice, quiet());
    assert_eq!(melt.neighbour, Change::Fresh(Element::Water, true));
    let coal = burn_outcome_of(Element::Ember, Element::Water, quiet());
    assert_eq!(coal.origin, Change::Fresh(Element::Coal, true));
    assert_eq!(coal.neighbour, Change::Keep);
    let caught = burn_outcome_of(Element::Air, Element::Fire, BurnRolls { catch: true, ..quiet() });
    assert_eq!(caught.origin, Change::Fresh(Element::Fire, false));
    assert!(caught.stop);
    let fumes = burn_outcome_of(Element::Acid, Element::Air, BurnRolls { acid_gas: true, acid_smoke: true, ..quiet() });
    assert_eq!(fumes.neighbour, Change::Fresh(Element::Smoke, false));
    let spark = burn_outcome_of(Element::Ember, Element::Air, BurnRolls { spark: true, spark_smoke: true, ..quiet() });
    assert_eq!(spark.neighbour, Change::Fresh(Element::Smoke, true));
    let nothing = burn_outcome_of(Element::Stone, Element::Wood, quiet());
    assert_eq!(nothing.neighbour, Change::Keep);
    assert_eq!(nothing.origin, Change::Keep);
}

#[test]
fn wood_lives_vary() {
    let first = Cell::new(Element::Wood).get_life();
    let mut varied = false;
    for _ in 0..200 {
        if Cell::new(Element::Wood).get_life() != first {
            varied = true;
        }
    }
    assert!(varied);
}

#[test]
fn spent_embers_leave_both_air_and_cinder() {
    let mut air = false;
    let mut cinder = false;
    for _ in 0..200 {
        let mut c = Cell::new(Element::Ember);
        c.set_life(Some(1));
        c.decay();
        if c.element() == Element::Air {
            air = true;
        } else {
            cinder = true;
        }
    }
    assert!(air && cinder);
}

#[test]
fn moves_follow_gravity() {
    let mut sim = Simulation::new(5, 5);
    sim.set_cell(2, 3, 3); // water below the middle
    for b in 0..18u8 {
        let e = Element::from_byte(b).unwrap();
        let c = Cell::new(e);
        for _ in 0..20 {
            for a in c.update(v(2, 2), &sim) {
                if matches!(a.t, ActionType::Move) {
                    let dy = a.d.factor().y;
                    match e {
                        Element::Sand | Element::Salt | Element::CanonPowder | Element::Cinder => {
                            assert_eq!(dy, 1)
                        }
                        Element::Water | Element::Acid | Element::Lava | Element::Oil => {
                            assert!(dy >= 0)
                        }
                        Element::Fire | Element::Smoke => assert!(dy <= 0),
                        _ => {}
                    }
                    let dest = sim.at(&a.v, a.d);
                    assert!(sim.in_bounds(&dest));
                    assert!(!sim.check_cell(dest).solid());
                    assert_ne!(sim.check_cell(dest), e);
                }
            }
        }
    }
}
