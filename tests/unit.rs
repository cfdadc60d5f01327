use hex_life::unit::{Shade, UnitData};

fn cell(inhabited: bool, marked: bool) -> UnitData {
    UnitData { inhabited, marked }
}

#[test]
fn new_cells_are_empty_and_unmarked() {
    assert_eq!(UnitData::new(), cell(false, false));
    assert_eq!(UnitData::empty(), cell(false, false));
    assert_eq!(UnitData::default(), cell(false, false));
}

#[test]
fn builders_change_one_flag() {
    let u = cell(false, true);
    assert_eq!(u.with_added_life(), cell(true, true));
    assert_eq!(cell(true, true).with_removed_life(), cell(false, true));
    assert_eq!(u.with_set_life(true), cell(true, true));
    assert_eq!(cell(true, false).with_mark(), cell(true, true));
    assert_eq!(cell(true, true).with_removed_marked(), cell(true, false));
}

#[test]
fn mutators_change_one_flag() {
    let mut u = cell(false, false);
    u.add_life();
    assert_eq!(u, cell(true, false));
    u.mark();
    assert_eq!(u, cell(true, true));
    u.remove_life();
    assert_eq!(u, cell(false, true));
    u.unmark();
    assert_eq!(u, cell(false, false));
}

#[test]
fn drawn_life_compares_the_draw_modulo_hundred() {
    let u = cell(false, true);
    assert_eq!(u.with_drawn_life(149, 50), cell(true, true));
    assert_eq!(u.with_drawn_life(150, 50), cell(false, true));
    assert_eq!(u.with_drawn_life(99, 100), cell(true, true));
    assert_eq!(cell(true, false).with_drawn_life(0, 0), cell(false, false));
}

#[test]
fn randomize_life_at_the_bounds_is_certain() {
    for _ in 0..50 {
        let mut u = cell(true, true);
        u.randomize_life(0);
        assert_eq!(u, cell(false, true));
        let mut v = cell(false, false);
        v.randomize_life(100);
        assert_eq!(v, cell(true, false));
    }
}

#[test]
fn shade_tells_life_from_ground() {
    assert_eq!(cell(true, false).shade(true), Shade::Life);
    assert_eq!(cell(true, true).shade(false), Shade::Life);
    assert_eq!(cell(false, false).shade(true), Shade::PentagonGround);
    assert_eq!(cell(false, true).shade(false), Shade::Ground);
}
