use std::collections::HashSet;

use hex_life::game::Game;
use hex_life::grid::Resolution;
use hex_life::pattern::{create_pattern_map, shift_ij, transpose_pattern, Pattern};

/// Root cell 0, a hexagon.
const HEX_ROOT: u64 = 0x8001fffffffffff;
/// Root cell 4, a pentagon.
const PENTA_ROOT: u64 = 0x8009fffffffffff;

#[test]
fn catalogue_is_ordered_by_footprint_then_name() {
    let patterns = create_pattern_map();
    let names: Vec<&str> = patterns.iter().map(|(n, _)| *n).collect();
    assert_eq!(
        names,
        vec![
            "Single cell",
            "Small flicker",
            "Rotating trio",
            "Small pulsar",
            "Little blob",
            "Medium wiggler",
            "Blob",
            "Star",
            "Glider"
        ]
    );
    let sizes: Vec<usize> = patterns.iter().map(|(_, p)| p.size()).collect();
    assert_eq!(sizes, vec![1, 2, 3, 3, 4, 4, 6, 7, 10]);
}

#[test]
fn shift_adds_the_offset() {
    assert_eq!(shift_ij((1, 2), (10, 20), (13, 25)), Some((4, 7)));
    assert_eq!(shift_ij((-5, 0), (3, 3), (0, 0)), Some((-8, -3)));
    assert_eq!(shift_ij((i32::MAX, 0), (0, 0), (1, 0)), None);
    assert_eq!(shift_ij((0, i32::MIN), (0, 1), (0, 0)), None);
}

#[test]
fn single_cell_is_the_centre() {
    assert_eq!(Pattern::SingleCell.as_cells(HEX_ROOT), vec![HEX_ROOT]);
    assert_eq!(Pattern::SingleCell.size(), 1);
}

#[test]
fn star_is_the_ring_around_the_centre() {
    let star = Pattern::Star.as_cells(HEX_ROOT);
    assert_eq!(star.len(), 6);
    assert!(!star.contains(&HEX_ROOT));
    let penta = Pattern::Star.as_cells(PENTA_ROOT);
    assert_eq!(penta.len(), 5);
    assert!(!penta.contains(&PENTA_ROOT));
    assert_eq!(Pattern::Star.size(), 7);
}

#[test]
fn shape_at_its_own_anchor_is_itself() {
    let cells = Pattern::small_pulsar().as_cells(0x8201a7fffffffff);
    assert_eq!(cells, vec![0x8201a7fffffffff, 0x8201affffffffff, 0x820117fffffffff]);
}

#[test]
fn shape_moves_with_its_anchor() {
    let target: u64 = 0x821327fffffffff;
    let moved = Pattern::small_flicker().as_cells(target);
    assert_eq!(moved.len(), 2);
    assert_eq!(moved[0], target);
    assert!(!moved.contains(&0x820837fffffffff));
    let direct = transpose_pattern(0x8208a7fffffffff, target, &vec![0x8208a7fffffffff, 0x820837fffffffff]);
    assert_eq!(moved, direct);
}

#[test]
fn transposing_from_an_invalid_anchor_is_empty() {
    assert!(transpose_pattern(0, HEX_ROOT, &vec![HEX_ROOT]).is_empty());
    assert!(transpose_pattern(HEX_ROOT, 0, &vec![HEX_ROOT]).is_empty());
}

#[test]
fn stamping_a_pattern_reads_back_its_footprint() {
    let target: u64 = 0x821327fffffffff;
    for (_, pattern) in create_pattern_map() {
        let mut g = Game::new(&Resolution::Two);
        g.kill_everything();
        g.stamp_pattern(&pattern, target);
        let occupied: HashSet<u64> =
            g.indecies().iter().copied().filter(|c| g.get_unit(*c).unwrap().inhabited).collect();
        let footprint: HashSet<u64> = pattern.as_cells(target).into_iter().collect();
        assert!(!footprint.is_empty());
        assert_eq!(occupied, footprint);
    }
}
