use hex_life::rules::SimpleRules;

#[test]
fn default_table_survives_at_three_and_five() {
    let rules = SimpleRules::default();
    assert_eq!(rules.survives, [false, false, false, true, false, true, false]);
    assert_eq!(rules.emerges, [false, false, true, false, false, false, false]);
}

#[test]
fn apply_reads_survival_for_occupied_cells() {
    let rules = SimpleRules::default();
    for n in 0..7usize {
        assert_eq!(rules.apply(n, true), Some(n == 3 || n == 5));
    }
}

#[test]
fn apply_reads_emergence_for_empty_cells() {
    let rules = SimpleRules::default();
    for n in 0..7usize {
        assert_eq!(rules.apply(n, false), Some(n == 2));
    }
}

#[test]
fn apply_rejects_counts_past_the_table() {
    let rules = SimpleRules::default();
    assert_eq!(rules.apply(7, true), None);
    assert_eq!(rules.apply(7, false), None);
    assert_eq!(rules.apply(usize::MAX, false), None);
}

#[test]
fn apply_follows_an_edited_table() {
    let mut rules = SimpleRules::default();
    rules.emerges[2] = false;
    rules.emerges[6] = true;
    rules.survives[0] = true;
    assert_eq!(rules.apply(2, false), Some(false));
    assert_eq!(rules.apply(6, false), Some(true));
    assert_eq!(rules.apply(0, true), Some(true));
}
