use tes3map::conflicts::compute_cell_conflicts;

#[test]
fn cells_of_several_plugins_conflict() {
    let plugins = vec![
        (11u64, vec![(0, 0), (1, 0), (2, 2)]),
        (22u64, vec![(1, 0), (5, 5)]),
        (33u64, vec![(1, 0), (2, 2), (7, 7)]),
    ];
    let mut conflicts = compute_cell_conflicts(&plugins);
    conflicts.sort();
    assert_eq!(conflicts, vec![((1, 0), vec![11, 22, 33]), ((2, 2), vec![11, 33])]);
}

#[test]
fn a_single_plugin_has_no_conflicts() {
    assert!(compute_cell_conflicts(&vec![(1u64, vec![(0, 0), (0, 1)])]).is_empty());
    assert!(compute_cell_conflicts(&vec![]).is_empty());
}

#[test]
fn a_cell_listed_twice_counts_twice() {
    let conflicts = compute_cell_conflicts(&vec![(4u64, vec![(3, 3), (3, 3)])]);
    assert_eq!(conflicts, vec![((3, 3), vec![4, 4])]);
}
