use falling_sand::config::{Config, Endpoint, World};
use falling_sand::direction::Cardinal;
use falling_sand::{Action, Cell, Direction, Element, Simulation, Vector2D};

fn v(x: i32, y: i32) -> Vector2D {
    Vector2D { x, y }
}

fn elements(sim: &Simulation) -> Vec<Vec<Element>> {
    let mut rows = Vec::new();
    for y in 0..sim.height() {
        let mut row = Vec::new();
        for x in 0..sim.width() {
            row.push(sim.check_cell(v(x, y)));
        }
        rows.push(row);
    }
    rows
}

#[test]
fn a_new_world_is_air_with_a_blank_picture() {
    let sim = Simulation::new(4, 3);
    assert_eq!(sim.width(), 4);
    assert_eq!(sim.height(), 3);
    assert_eq!(sim.dump().len(), 36);
    assert!(sim.dump().iter().all(|b| *b == 0));
    for row in elements(&sim) {
        assert!(row.iter().all(|e| *e == Element::Air));
    }
}

#[test]
fn an_empty_world() {
    let sim = Simulation::new(0, 0);
    assert_eq!(sim.dump().len(), 0);
    assert!(!sim.in_bounds(&v(0, 0)));
}

#[test]
fn bounds() {
    let sim = Simulation::new(4, 3);
    assert!(sim.in_bounds(&v(0, 0)));
    assert!(sim.in_bounds(&v(3, 2)));
    assert!(!sim.in_bounds(&v(4, 2)));
    assert!(!sim.in_bounds(&v(3, 3)));
    assert!(!sim.in_bounds(&v(-1, 0)));
    assert!(!sim.in_bounds(&v(0, -1)));
}

#[test]
fn stepping() {
    let sim = Simulation::new(4, 3);
    assert_eq!(sim.at(&v(1, 1), Direction::new(Cardinal::S, 3)), v(1, 4));
    assert_eq!(sim.at(&v(5, 5), Direction::new(Cardinal::NW, 2)), v(3, 3));
    assert_eq!(sim.at(&v(0, 0), Direction::new(Cardinal::W, 1)), v(-1, 0));
    assert_eq!(sim.at(&v(2, 2), Direction::new(Cardinal::N, 0)), v(2, 2));
}

#[test]
fn neighbours_of_a_corner() {
    let sim = Simulation::new(3, 3);
    assert_eq!(sim.get_neighbours(&v(0, 0)), vec![v(1, 0), v(1, 1), v(0, 1)]);
}

#[test]
fn neighbours_of_the_centre_in_compass_order() {
    let sim = Simulation::new(3, 3);
    assert_eq!(
        sim.get_neighbours(&v(1, 1)),
        vec![v(1, 0), v(2, 0), v(2, 1), v(2, 2), v(1, 2), v(0, 2), v(0, 1), v(0, 0)]
    );
}

#[test]
fn neighbours_are_exactly_the_adjacent_cells() {
    let sim = Simulation::new(4, 3);
    for y in -1..4 {
        for x in -1..5 {
            let p = v(x, y);
            let ns = sim.get_neighbours(&p);
            for qy in -2..5 {
                for qx in -2..6 {
                    let q = v(qx, qy);
                    let adjacent = q != p && (qx - x).abs() <= 1 && (qy - y).abs() <= 1;
                    assert_eq!(ns.contains(&q), sim.in_bounds(&q) && adjacent);
                }
            }
        }
    }
}

#[test]
fn set_and_check_cells() {
    let mut sim = Simulation::new(3, 3);
    sim.set_cell(2, 1, 2);
    assert_eq!(sim.check_cell(v(2, 1)), Element::Sand);
    assert_eq!(sim.check_cell(v(1, 1)), Element::Air);
    sim.set_cell(2, 1, 12);
    assert_eq!(sim.check_cell(v(2, 1)), Element::Lava);
}

#[test]
fn swapping_trades_and_marks() {
    let mut sim = Simulation::new(2, 1);
    sim.set_cell(0, 0, 2);
    sim.set_cell(1, 0, 3);
    sim.reset_update();
    sim.swap(&v(0, 0), &v(1, 0));
    assert_eq!(elements(&sim), vec![vec![Element::Water, Element::Sand]]);
    sim.update();
    let d = sim.dump();
    assert_eq!(d.len(), 6);
}

#[test]
fn swapping_twice_restores() {
    let mut sim = Simulation::new(3, 1);
    sim.set_cell(0, 0, 2);
    sim.set_cell(2, 0, 10);
    let before = elements(&sim);
    sim.swap(&v(0, 0), &v(2, 0));
    sim.swap(&v(0, 0), &v(2, 0));
    assert_eq!(elements(&sim), before);
}

#[test]
fn a_move_rotates_its_path() {
    let mut sim = Simulation::new(1, 4);
    sim.set_cell(0, 0, 2);
    sim.set_cell(0, 1, 3);
    sim.set_cell(0, 2, 3);
    sim.apply_actions(Action::new_move(v(0, 0), Direction::new(Cardinal::S, 2)));
    assert_eq!(
        elements(&sim),
        vec![vec![Element::Water], vec![Element::Water], vec![Element::Sand], vec![Element::Air]]
    );
}

#[test]
fn eating_leaves_the_element_given() {
    let mut sim = Simulation::new(2, 2);
    sim.set_cell(1, 1, 4);
    sim.apply_actions(Action::new_eat(v(1, 1), Element::Air));
    assert_eq!(sim.check_cell(v(1, 1)), Element::Air);
}

#[test]
fn dying_changes_nothing() {
    let mut sim = Simulation::new(2, 2);
    sim.set_cell(1, 1, 4);
    let before = elements(&sim);
    sim.apply_actions(Action::new_die(v(1, 1), Element::Air));
    assert_eq!(elements(&sim), before);
}

#[test]
fn cold_burns_change_nothing() {
    let mut sim = Simulation::new(3, 3);
    sim.set_cell(1, 1, 1);
    sim.set_cell(0, 0, 4);
    sim.set_cell(2, 2, 10);
    let before = elements(&sim);
    sim.apply_actions(Action::new_burn(v(1, 1)));
    assert_eq!(elements(&sim), before);
}

#[test]
fn lava_quenches_into_stone() {
    let mut sim = Simulation::new(2, 1);
    sim.set_cell(0, 0, 12);
    sim.set_cell(1, 0, 3);
    sim.apply_actions(Action::new_burn(v(0, 0)));
    assert_eq!(elements(&sim), vec![vec![Element::Stone, Element::Stone]]);
}

#[test]
fn reactions_without_partners_change_nothing() {
    let mut sim = Simulation::new(3, 3);
    sim.set_cell(1, 1, 14);
    let before = elements(&sim);
    sim.apply_actions(Action::new_grow(v(1, 1)));
    assert_eq!(elements(&sim), before);
    sim.set_cell(1, 1, 13);
    let before = elements(&sim);
    sim.apply_actions(Action::new_disolve(v(1, 1)));
    assert_eq!(elements(&sim), before);
    sim.set_cell(1, 1, 15);
    let before = elements(&sim);
    sim.apply_actions(Action::new_liquidize(v(1, 1)));
    assert_eq!(elements(&sim), before);
}

#[test]
fn moss_only_grows_into_water() {
    let mut sim = Simulation::new(3, 3);
    sim.set_cell(1, 1, 14);
    sim.set_cell(0, 0, 3);
    sim.set_cell(2, 2, 2);
    for _ in 0..200 {
        sim.apply_actions(Action::new_grow(v(1, 1)));
    }
    let e = sim.check_cell(v(0, 0));
    assert!(e == Element::Water || e == Element::Moss);
    assert_eq!(sim.check_cell(v(2, 2)), Element::Sand);
}

#[test]
fn reset_clears_every_mark() {
    let mut sim = Simulation::new(3, 2);
    sim.set_cell(0, 0, 2);
    sim.set_cell(2, 1, 3);
    sim.reset_update();
    sim.update();
    sim.reset_update();
    sim.update();
    let d = sim.dump();
    // nothing can move any more: sand and water rest on the floor or have settled
    assert_eq!(d.len(), 18);
}

#[test]
fn a_grain_falls_through_the_frame() {
    let mut sim = Simulation::new(3, 5);
    sim.set_cell(1, 0, 2);
    sim.reset_update();
    sim.update();
    assert_eq!(sim.check_cell(v(1, 4)), Element::Sand);
    assert_eq!(sim.check_cell(v(1, 0)), Element::Air);
    let d = sim.dump();
    let base = ((4 * 3 + 1) * 3) as usize;
    assert_eq!(d[base], Element::Sand.to_byte());
    assert_eq!(d[base + 2], 1);
    assert_eq!(d[0], Element::Air.to_byte());
}

#[test]
fn the_picture_matches_the_cells() {
    let mut sim = Simulation::new(4, 4);
    sim.set_cell(0, 0, 1);
    sim.set_cell(3, 3, 4);
    sim.set_cell(2, 0, 3);
    sim.update();
    let d = sim.dump().clone();
    for y in 0..4 {
        for x in 0..4 {
            let i = ((y * 4 + x) * 3) as usize;
            assert_eq!(d[i], sim.check_cell(v(x, y)).to_byte());
        }
    }
}

#[test]
fn stone_and_wood_stay_put() {
    let mut sim = Simulation::new(3, 3);
    sim.set_cell(0, 0, 1);
    sim.set_cell(2, 0, 4);
    for _ in 0..5 {
        sim.update();
    }
    assert_eq!(sim.check_cell(v(0, 0)), Element::Stone);
    assert_eq!(sim.check_cell(v(2, 0)), Element::Wood);
}

#[test]
fn fire_burns_out() {
    let mut sim = Simulation::new(1, 1);
    sim.set_cell(0, 0, 5);
    for _ in 0..5 {
        sim.update();
    }
    assert_eq!(sim.check_cell(v(0, 0)), Element::Air);
}

#[test]
fn a_cell_asks_only_for_what_the_world_can_do() {
    let mut sim = Simulation::new(4, 4);
    sim.set_cell(1, 1, 11);
    sim.set_cell(2, 2, 3);
    for y in 0..4 {
        for x in 0..4 {
            let c = Cell::new(sim.check_cell(v(x, y)));
            for a in c.update(v(x, y), &sim) {
                assert!(sim.in_bounds(&a.v));
            }
        }
    }
}

#[test]
fn config_values() {
    let c = Config {
        endpoint: Endpoint { address: "127.0.0.1".to_string(), port: "8080".to_string() },
        world: World { x: 200, y: 100, frequency: 30 },
    };
    assert_eq!(c.world.x * c.world.y, 20000);
    assert_eq!(c.endpoint.port, "8080");
}

fn rolls(n: usize, r: falling_sand::reaction::BurnRolls) -> Vec<falling_sand::reaction::BurnRolls> {
    (0..n).map(|_| r).collect()
}

fn quiet() -> falling_sand::reaction::BurnRolls {
    falling_sand::reaction::BurnRolls {
        ignite: false,
        spark: false,
        spark_smoke: false,
        lava_spark: false,
        lava_smoke: false,
        acid_gas: false,
        acid_smoke: false,
        catch: false,
    }
}

#[test]
fn fire_sets_wood_smouldering_and_oil_alight() {
    let mut sim = Simulation::new(3, 1);
    sim.set_cell(0, 0, 4); // wood
    sim.set_cell(1, 0, 5); // fire
    sim.set_cell(2, 0, 10); // oil
    let n = sim.get_neighbours(&v(1, 0)).len();
    let r = falling_sand::reaction::BurnRolls { ignite: true, ..quiet() };
    sim.burn_with(v(1, 0), &rolls(n, r));
    assert_eq!(sim.check_cell(v(0, 0)), Element::Ember);
    assert_eq!(sim.check_cell(v(1, 0)), Element::Fire);
    assert_eq!(sim.check_cell(v(2, 0)), Element::Fire);
}

#[test]
fn air_catching_fire_stops_the_burn() {
    let mut sim = Simulation::new(3, 1);
    sim.set_cell(0, 0, 5); // fire to the west of the air at (1, 0)
    sim.set_cell(2, 0, 3); // water to the east
    let n = sim.get_neighbours(&v(1, 0)).len();
    let r = falling_sand::reaction::BurnRolls { catch: true, ..quiet() };
    sim.burn_with(v(1, 0), &rolls(n, r));
    assert_eq!(sim.check_cell(v(1, 0)), Element::Fire);
    assert_eq!(sim.check_cell(v(2, 0)), Element::Water);
}

#[test]
fn embers_turn_to_coal_by_water() {
    let mut sim = Simulation::new(2, 1);
    sim.set_cell(0, 0, 7);
    sim.set_cell(1, 0, 3);
    sim.burn_with(v(0, 0), &rolls(1, quiet()));
    assert_eq!(sim.check_cell(v(0, 0)), Element::Coal);
    assert_eq!(sim.check_cell(v(1, 0)), Element::Water);
}

#[test]
fn picked_water_grows_moss() {
    let mut sim = Simulation::new(3, 1);
    sim.set_cell(0, 0, 3);
    sim.set_cell(1, 0, 14);
    sim.set_cell(2, 0, 3);
    // neighbours of (1, 0) in compass order: east, then west
    sim.grow_with(v(1, 0), &vec![false, true]);
    assert_eq!(sim.check_cell(v(0, 0)), Element::Moss);
    assert_eq!(sim.check_cell(v(2, 0)), Element::Water);
}

#[test]
fn picked_partners_soak() {
    let mut sim = Simulation::new(3, 1);
    sim.set_cell(0, 0, 3);
    sim.set_cell(1, 0, 13);
    sim.set_cell(2, 0, 2);
    sim.soak_with(v(1, 0), false, &vec![true, false]);
    assert_eq!(sim.check_cell(v(1, 0)), Element::Salt);
    sim.soak_with(v(1, 0), false, &vec![false, true]);
    assert_eq!(sim.check_cell(v(1, 0)), Element::Water);
    sim.set_cell(1, 0, 15);
    sim.set_cell(0, 0, 5);
    sim.soak_with(v(1, 0), true, &vec![false, true]);
    assert_eq!(sim.check_cell(v(1, 0)), Element::Water);
}

#[test]
fn the_text_picture() {
    let mut sim = Simulation::new(3, 2);
    sim.set_cell(0, 0, 1);
    sim.set_cell(2, 1, 3);
    assert_eq!(sim.picture(), "#  \n  ~\n");
    assert_eq!(Simulation::new(0, 0).picture(), "");
}

#[test]
fn dying_anywhere_changes_nothing() {
    let mut sim = Simulation::new(2, 2);
    sim.set_cell(0, 0, 2);
    let before = elements(&sim);
    sim.apply_actions(Action::new_die(v(-7, 40), Element::Stone));
    assert_eq!(elements(&sim), before);
}

#[test]
fn growing_beside_the_grid() {
    let mut sim = Simulation::new(2, 2);
    sim.set_cell(0, 0, 3);
    sim.set_cell(1, 1, 2);
    for _ in 0..300 {
        sim.apply_actions(Action::new_grow(v(-1, 0)));
    }
    let e = sim.check_cell(v(0, 0));
    assert!(e == Element::Water || e == Element::Moss);
    assert_eq!(sim.check_cell(v(1, 1)), Element::Sand);
}

#[test]
fn a_still_move_changes_nothing() {
    let mut sim = Simulation::new(2, 2);
    sim.set_cell(0, 0, 2);
    let before = elements(&sim);
    sim.apply_actions(Action::new_move(v(-3, 9), Direction::new(Cardinal::S, 0)));
    assert_eq!(elements(&sim), before);
}

#[test]
fn still_air_stays_still_and_unmarked() {
    let mut sim = Simulation::new(2, 2);
    sim.update();
    for y in 0..2 {
        for x in 0..2 {
            assert_eq!(sim.check_cell(v(x, y)), Element::Air);
        }
    }
    let d = sim.dump();
    for k in 0..4 {
        assert_eq!(d[3 * k], Element::Air.to_byte());
        assert_eq!(d[3 * k + 2], 0);
    }
}

#[test]
fn a_frame_of_settling_matter_keeps_every_element_count() {
    let mut sim = Simulation::new(4, 4);
    sim.set_cell(0, 0, 2);
    sim.set_cell(1, 0, 3);
    sim.set_cell(2, 1, 1);
    sim.set_cell(3, 0, 2);
    sim.set_cell(1, 2, 3);
    let count = |sim: &Simulation, e: Element| {
        elements(sim).iter().flatten().filter(|x| **x == e).count()
    };
    let before: Vec<usize> = [Element::Air, Element::Sand, Element::Water, Element::Stone]
        .iter()
        .map(|e| count(&sim, *e))
        .collect();
    for _ in 0..4 {
        sim.update();
        let now: Vec<usize> = [Element::Air, Element::Sand, Element::Water, Element::Stone]
            .iter()
            .map(|e| count(&sim, *e))
            .collect();
        assert_eq!(now, before);
    }
}

#[test]
fn still_things_plan_alike_every_time() {
    let sim = Simulation::new(3, 3);
    for b in [0u8, 1, 2, 4, 7, 8, 9, 13, 14, 15, 17] {
        let c = Cell::new(Element::from_byte(b).unwrap());
        assert_eq!(c.update(v(1, 0), &sim), c.update(v(1, 0), &sim));
    }
    let stone = Cell::new(Element::Stone);
    assert!(stone.update(v(i32::MAX, i32::MIN), &sim).is_empty());
}
