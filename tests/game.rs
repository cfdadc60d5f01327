use std::collections::HashMap;

use hex_life::game::{Field, Game, Unit};
use hex_life::grid::Resolution;
use hex_life::rules::SimpleRules;
use hex_life::unit::UnitData;

/// Root cell 0, a hexagon.
const HEX_ROOT: u64 = 0x8001fffffffffff;

fn ring(c: u64) -> Vec<u64> {
    h3o::CellIndex::try_from(c)
        .expect("valid cell")
        .grid_disk::<Vec<_>>(1)
        .into_iter()
        .map(u64::from)
        .filter(|x| *x != c)
        .collect()
}

fn snapshot(g: &Game) -> HashMap<u64, UnitData> {
    g.indecies()
        .iter()
        .map(|c| (*c, *g.get_unit(*c).expect("active cell")))
        .collect()
}

fn live_neighbours(state: &HashMap<u64, UnitData>, c: u64) -> usize {
    ring(c)
        .into_iter()
        .filter(|n| state.get(n).map(|u| u.inhabited).unwrap_or(false))
        .count()
}

#[test]
fn new_game_covers_every_root_cell() {
    let g = Game::new(&Resolution::Zero);
    assert_eq!(g.indecies().len(), 122);
    assert_eq!(g.resolution(), Resolution::Zero);
    assert!(g.indecies().contains(&HEX_ROOT));
    for c in g.indecies() {
        assert_eq!(g.get_unit(*c), Some(&UnitData::new()));
    }
}

#[test]
fn new_game_at_resolution_one_subdivides_every_root() {
    let g = Game::new(&Resolution::One);
    assert_eq!(g.indecies().len(), 842);
    assert!(!g.indecies().contains(&HEX_ROOT));
}

#[test]
fn default_game_is_at_resolution_two() {
    let g = Game::default();
    assert_eq!(g.resolution(), Resolution::Two);
    assert_eq!(g.indecies().len(), 5882);
}

#[test]
fn lookups_outside_the_field_miss() {
    let mut g = Game::new(&Resolution::Zero);
    let foreign: u64 = 0x8201a7fffffffff;
    assert!(g.get_unit(foreign).is_none());
    assert!(g.get_mut_unit(&foreign).is_none());
    g.mark_unit(foreign);
    g.unmark_unit(foreign);
    assert!(g.get_unit(foreign).is_none());
}

#[test]
fn marks_are_set_and_cleared() {
    let mut g = Game::new(&Resolution::Zero);
    g.mark_unit(HEX_ROOT);
    assert_eq!(g.get_unit(HEX_ROOT), Some(&UnitData { inhabited: false, marked: true }));
    g.unmark_unit(HEX_ROOT);
    assert_eq!(g.get_unit(HEX_ROOT), Some(&UnitData::new()));
    let other = g.indecies()[5];
    g.mark_unit(HEX_ROOT);
    g.mark_unit(other);
    g.remove_marks();
    assert!(g.indecies().iter().all(|c| !g.get_unit(*c).unwrap().marked));
}

#[test]
fn get_mut_unit_edits_in_place() {
    let mut g = Game::new(&Resolution::Zero);
    g.get_mut_unit(&HEX_ROOT).expect("active cell").add_life();
    assert_eq!(g.get_unit(HEX_ROOT), Some(&UnitData { inhabited: true, marked: false }));
    let other = g.indecies()[7];
    assert_eq!(g.get_unit(other), Some(&UnitData::new()));
}

#[test]
fn kill_everything_twice_equals_once() {
    let mut g = Game::new(&Resolution::Zero);
    g.spawn_life(100);
    g.mark_unit(HEX_ROOT);
    g.kill_everything();
    let once = snapshot(&g);
    g.kill_everything();
    let twice = snapshot(&g);
    assert_eq!(once, twice);
    assert!(once.values().all(|u| !u.inhabited));
    assert!(once[&HEX_ROOT].marked);
    assert_eq!(once.values().filter(|u| u.marked).count(), 1);
}

#[test]
fn swap_buffers_twice_restores_both_generations() {
    let mut g = Game::new(&Resolution::Zero);
    g.spawn_life(50);
    assert!(g.next_tick(&SimpleRules::default()));
    let present = snapshot(&g);
    g.swap_buffers();
    let future = snapshot(&g);
    g.swap_buffers();
    assert_eq!(snapshot(&g), present);
    g.swap_buffers();
    assert_eq!(snapshot(&g), future);
}

#[test]
fn spawn_life_at_the_bounds_is_certain() {
    let mut g = Game::new(&Resolution::Zero);
    g.spawn_life(100);
    assert!(snapshot(&g).values().all(|u| u.inhabited && !u.marked));
    g.swap_buffers();
    assert!(snapshot(&g).values().all(|u| u.inhabited && !u.marked));
    g.mark_unit(HEX_ROOT);
    g.spawn_life(0);
    assert!(snapshot(&g).values().all(|u| !u.inhabited && !u.marked));
    g.swap_buffers();
    assert!(snapshot(&g).values().all(|u| !u.inhabited && !u.marked));
}

#[test]
fn with_spawned_life_keeps_the_cells() {
    let g = Game::new(&Resolution::Zero).with_spawned_life();
    assert_eq!(g.indecies().len(), 122);
    assert!(snapshot(&g).values().all(|u| !u.marked));
}

#[test]
fn tick_applies_the_rule_to_every_cell() {
    let mut g = Game::new(&Resolution::Zero);
    let cells: Vec<u64> = g.indecies().clone();
    for (k, c) in cells.iter().enumerate() {
        if k % 3 == 0 || k % 7 == 1 {
            g.get_mut_unit(c).unwrap().add_life();
        }
    }
    let before = snapshot(&g);
    let rules = SimpleRules::default();
    assert!(g.next_tick(&rules));
    g.swap_buffers();
    let after = snapshot(&g);
    for c in &cells {
        let n = live_neighbours(&before, *c);
        let expected = rules.apply(n, before[c].inhabited).expect("count within the table");
        assert_eq!(after[c].inhabited, expected);
        assert_eq!(after[c].marked, before[c].marked);
    }
}

#[test]
fn tick_result_does_not_depend_on_visiting_order() {
    let mut g = Game::new(&Resolution::Zero);
    let cells: Vec<u64> = g.indecies().clone();
    for (k, c) in cells.iter().enumerate() {
        if k % 2 == 0 {
            g.get_mut_unit(c).unwrap().add_life();
        }
    }
    let before = snapshot(&g);
    let rules = SimpleRules::default();
    let mut forward: HashMap<u64, bool> = HashMap::new();
    for c in cells.iter() {
        forward.insert(*c, rules.apply(live_neighbours(&before, *c), before[c].inhabited).unwrap());
    }
    let mut backward: HashMap<u64, bool> = HashMap::new();
    for c in cells.iter().rev() {
        backward.insert(*c, rules.apply(live_neighbours(&before, *c), before[c].inhabited).unwrap());
    }
    assert!(g.next_tick(&rules));
    g.swap_buffers();
    let after: HashMap<u64, bool> = snapshot(&g).into_iter().map(|(c, u)| (c, u.inhabited)).collect();
    assert_eq!(after, forward);
    assert_eq!(after, backward);
}

#[test]
fn empty_cell_with_two_live_neighbours_is_born() {
    let mut g = Game::new(&Resolution::Zero);
    let neighbours = ring(HEX_ROOT);
    assert_eq!(neighbours.len(), 6);
    for n in &neighbours[..2] {
        g.get_mut_unit(n).unwrap().add_life();
    }
    assert!(g.next_tick(&SimpleRules::default()));
    g.swap_buffers();
    assert!(g.get_unit(HEX_ROOT).unwrap().inhabited);
}

#[test]
fn occupied_cell_with_four_live_neighbours_dies() {
    let mut g = Game::new(&Resolution::Zero);
    let neighbours = ring(HEX_ROOT);
    g.get_mut_unit(&HEX_ROOT).unwrap().add_life();
    for n in &neighbours[..4] {
        g.get_mut_unit(n).unwrap().add_life();
    }
    assert!(g.next_tick(&SimpleRules::default()));
    g.swap_buffers();
    assert!(!g.get_unit(HEX_ROOT).unwrap().inhabited);
}

#[test]
fn set_resolution_discards_the_former_cells() {
    let mut g = Game::new(&Resolution::Zero);
    let former: Vec<u64> = g.indecies().clone();
    g.set_resolution(&Resolution::One);
    assert_eq!(g.resolution(), Resolution::One);
    assert_eq!(g.indecies().len(), 842);
    for c in &former {
        assert!(g.get_unit(*c).is_none());
    }
    assert!(snapshot(&g).values().all(|u| !u.marked));
}

#[test]
fn fineness_changes_stop_at_the_bounds() {
    let mut g = Game::new(&Resolution::Zero);
    g.get_mut_unit(&HEX_ROOT).unwrap().mark();
    g.decrease_fineness();
    assert_eq!(g.resolution(), Resolution::Zero);
    assert!(g.get_unit(HEX_ROOT).unwrap().marked);
    g.increase_fineness();
    assert_eq!(g.resolution(), Resolution::One);
    assert_eq!(g.indecies().len(), 842);
    g.decrease_fineness();
    assert_eq!(g.resolution(), Resolution::Zero);
    assert_eq!(g.indecies().len(), 122);
    assert!(!g.get_unit(HEX_ROOT).unwrap().marked);
}

#[test]
fn stamp_occupies_only_cells_of_the_field() {
    let mut g = Game::new(&Resolution::Zero);
    let a = g.indecies()[3];
    let b = g.indecies()[40];
    g.stamp(&vec![a, 0x8201a7fffffffff, b]);
    let occupied: Vec<u64> = g.indecies().iter().copied().filter(|c| g.get_unit(*c).unwrap().inhabited).collect();
    assert_eq!(occupied.len(), 2);
    assert!(occupied.contains(&a) && occupied.contains(&b));
}

#[test]
fn count_skips_the_centre_and_absent_cells() {
    let mut m: HashMap<u64, UnitData> = HashMap::new();
    m.insert(9, UnitData { inhabited: true, marked: false });
    m.insert(1, UnitData { inhabited: true, marked: false });
    m.insert(2, UnitData { inhabited: true, marked: true });
    m.insert(3, UnitData { inhabited: false, marked: false });
    let field = Field(m);
    assert_eq!(field.count_live_neighbours(9, &vec![9, 1, 2, 3, 4]), 2);
    assert_eq!(field.count_live_neighbours(1, &vec![9, 1, 2, 3, 4]), 2);
    assert_eq!(field.count_live_neighbours(9, &vec![]), 0);
    assert_eq!(field.count_live_neighbours(4, &vec![1, 1, 2]), 3);
}

#[test]
fn unit_reads_its_neighbours_from_the_field() {
    let neighbours = ring(HEX_ROOT);
    let mut m: HashMap<u64, UnitData> = HashMap::new();
    m.insert(HEX_ROOT, UnitData { inhabited: false, marked: true });
    m.insert(neighbours[0], UnitData { inhabited: true, marked: false });
    m.insert(neighbours[1], UnitData { inhabited: true, marked: false });
    m.insert(neighbours[2], UnitData { inhabited: false, marked: false });
    let field = Field(m);
    let unit = Unit { backref: &field, idx: HEX_ROOT, data: UnitData { inhabited: false, marked: true } };
    let seen = unit.get_neighbours();
    assert_eq!(seen.len(), 3);
    assert_eq!(seen.iter().filter(|u| u.inhabited).count(), 2);
    let rules = SimpleRules::default();
    assert_eq!(unit.transform(&rules), Some(UnitData { inhabited: true, marked: true }));
}
