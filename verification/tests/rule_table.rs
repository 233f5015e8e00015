use boolean_nets::error::GridError;
use boolean_nets::rule::{is_admissible, table_size, RuleTable, MAX_ARITY};

fn entries_of(table: &RuleTable) -> Vec<bool> {
    (0..table.size()).map(|i| table.lookup(i)).collect()
}

fn reference_table(arity: usize, seed: u64) -> (Vec<bool>, u64) {
    let mut rng = fastrand::Rng::with_seed(seed);
    let size = 1usize << arity;
    let mut entries = Vec::new();
    for i in 0..size {
        let mut bit = rng.bool();
        while (i == 0 && bit) || (i == size - 1 && !bit) {
            bit = rng.bool();
        }
        entries.push(bit);
    }
    (entries, rng.get_seed())
}

#[test]
fn identity_rule_is_accepted() {
    let table = RuleTable::from_entries(1, vec![false, true]).unwrap();
    assert_eq!(table.arity(), 1);
    assert_eq!(table.size(), 2);
    assert!(!table.lookup(0));
    assert!(table.lookup(1));
}

#[test]
fn all_ones_mapping_to_false_is_rejected() {
    let r = RuleTable::from_entries(1, vec![false, false]);
    assert!(matches!(r, Err(GridError::Configuration)));
}

#[test]
fn all_zeros_mapping_to_true_is_rejected() {
    let r = RuleTable::from_entries(1, vec![true, true]);
    assert!(matches!(r, Err(GridError::Configuration)));
    let r = RuleTable::from_entries(2, vec![true, false, false, true]);
    assert!(matches!(r, Err(GridError::Configuration)));
}

#[test]
fn wrong_length_is_rejected() {
    assert!(matches!(
        RuleTable::from_entries(2, vec![false, true]),
        Err(GridError::Configuration)
    ));
    assert!(matches!(
        RuleTable::from_entries(1, vec![false, true, true, true]),
        Err(GridError::Configuration)
    ));
    assert!(matches!(RuleTable::from_entries(1, vec![]), Err(GridError::Configuration)));
}

#[test]
fn arity_outside_limits_is_rejected() {
    assert!(matches!(RuleTable::from_entries(0, vec![true]), Err(GridError::Configuration)));
    assert!(matches!(RuleTable::generate(0, 7), Err(GridError::Configuration)));
    assert!(matches!(
        RuleTable::generate(MAX_ARITY + 1, 7),
        Err(GridError::Configuration)
    ));
    assert!(RuleTable::generate(MAX_ARITY, 7).is_ok());
}

#[test]
fn table_sizes_are_powers_of_two() {
    assert_eq!(table_size(1), 2);
    assert_eq!(table_size(3), 8);
    assert_eq!(table_size(10), 1024);
    assert_eq!(table_size(16), 65536);
}

#[test]
fn admissible_values_at_the_boundaries() {
    assert!(is_admissible(0, 8, false));
    assert!(!is_admissible(0, 8, true));
    assert!(is_admissible(7, 8, true));
    assert!(!is_admissible(7, 8, false));
    assert!(is_admissible(3, 8, true));
    assert!(is_admissible(3, 8, false));
}

#[test]
fn generated_tables_hold_the_boundary_entries() {
    for seed in 0..200u64 {
        for arity in 1..=5usize {
            let (table, _) = RuleTable::generate(arity, seed).unwrap();
            assert_eq!(table.size(), 1 << arity);
            assert!(!table.lookup(0));
            assert!(table.lookup(table.size() - 1));
        }
    }
}

#[test]
fn arity_one_always_gives_the_identity_rule() {
    for seed in 0..50u64 {
        let (table, _) = RuleTable::generate(1, seed).unwrap();
        assert_eq!(entries_of(&table), vec![false, true]);
    }
}

#[test]
fn generated_table_follows_the_generator() {
    for seed in [0u64, 1, 42, 0xdead_beef, u64::MAX] {
        for arity in [1usize, 3, 6] {
            let (table, next) = RuleTable::generate(arity, seed).unwrap();
            let (expected, expected_next) = reference_table(arity, seed);
            assert_eq!(entries_of(&table), expected);
            assert_eq!(next, expected_next);
        }
    }
}

#[test]
fn generation_advances_the_generator() {
    let (_, next) = RuleTable::generate(3, 99).unwrap();
    assert_ne!(next, 99);
}

#[test]
fn different_seeds_give_different_tables() {
    let (a, _) = RuleTable::generate(8, 1).unwrap();
    let (b, _) = RuleTable::generate(8, 2).unwrap();
    assert_ne!(entries_of(&a), entries_of(&b));
}

#[test]
fn same_seed_gives_the_same_table() {
    let (a, next_a) = RuleTable::generate(6, 1234).unwrap();
    let (b, next_b) = RuleTable::generate(6, 1234).unwrap();
    assert_eq!(entries_of(&a), entries_of(&b));
    assert_eq!(next_a, next_b);
}

#[test]
fn randomize_keeps_the_boundary_entries() {
    let (mut table, mut state) = RuleTable::generate(4, 5).unwrap();
    for _ in 0..100 {
        state = table.randomize(state);
        assert_eq!(table.arity(), 4);
        assert_eq!(table.size(), 16);
        assert!(!table.lookup(0));
        assert!(table.lookup(15));
    }
}

#[test]
fn randomize_rolls_as_generate_does() {
    let (mut table, _) = RuleTable::generate(5, 5).unwrap();
    let next = table.randomize(77);
    let (fresh, fresh_next) = RuleTable::generate(5, 77).unwrap();
    assert_eq!(entries_of(&table), entries_of(&fresh));
    assert_eq!(next, fresh_next);
}

#[test]
fn get_answers_inside_and_outside() {
    let table = RuleTable::from_entries(2, vec![false, true, false, true]).unwrap();
    assert_eq!(table.get(1), Some(true));
    assert_eq!(table.get(2), Some(false));
    assert_eq!(table.get(4), None);
}

#[test]
fn clone_keeps_the_table() {
    let table = RuleTable::from_entries(2, vec![false, true, false, true]).unwrap();
    let copy = table.clone();
    assert_eq!(copy.arity(), 2);
    assert_eq!(entries_of(&copy), entries_of(&table));
}
