use tes3map::travel::{build_travel_edges, referenced_travel_npcs};

fn s(x: &str) -> String {
    x.to_string()
}

#[test]
fn lines_are_grouped_by_class() {
    let npcs = vec![(s("captain"), (0, 0)), (s("guide"), (5, 5)), (s("nobody"), (1, 1))];
    let travels = vec![
        (s("captain"), (vec![(3, 3), (4, 4)], s("Shipmaster"))),
        (s("guide"), (vec![(6, 6)], s("Caravaner"))),
    ];
    let mut groups = build_travel_edges(&npcs, &travels);
    groups.sort();
    assert_eq!(
        groups,
        vec![
            (s("Caravaner"), vec![((5, 5), (6, 6))]),
            (s("Shipmaster"), vec![((0, 0), (3, 3)), ((0, 0), (4, 4))]),
        ]
    );
}

#[test]
fn a_return_line_is_not_drawn_twice() {
    let npcs = vec![(s("a"), (0, 0)), (s("b"), (2, 0))];
    let travels = vec![
        (s("a"), (vec![(2, 0)], s("Shipmaster"))),
        (s("b"), (vec![(0, 0), (9, 9)], s("Shipmaster"))),
    ];
    let groups = build_travel_edges(&npcs, &travels);
    assert_eq!(groups, vec![(s("Shipmaster"), vec![((0, 0), (2, 0)), ((2, 0), (9, 9))])]);
}

#[test]
fn a_repeated_line_is_dropped() {
    let npcs = vec![(s("a"), (0, 0))];
    let travels = vec![(s("a"), (vec![(1, 1), (1, 1)], s("Gondolier")))];
    let groups = build_travel_edges(&npcs, &travels);
    assert_eq!(groups, vec![(s("Gondolier"), vec![((0, 0), (1, 1))])]);
}

#[test]
fn classes_of_other_npcs_stay_apart() {
    let npcs = vec![(s("a"), (0, 0)), (s("b"), (0, 0))];
    let travels = vec![
        (s("a"), (vec![(1, 0)], s("Shipmaster"))),
        (s("b"), (vec![(1, 0)], s("Caravaner"))),
    ];
    let groups = build_travel_edges(&npcs, &travels);
    assert_eq!(groups.len(), 2);
    assert!(build_travel_edges(&vec![], &travels).is_empty());
}

#[test]
fn a_cell_references_the_travel_npcs_standing_in_it() {
    let travel_ids = vec![s("captain"), s("guide"), s("silt strider")];
    let refs = vec![s("barrel"), s("silt strider"), s("captain"), s("captain")];
    assert_eq!(referenced_travel_npcs(&travel_ids, &refs), vec![s("captain"), s("silt strider")]);
    assert_eq!(referenced_travel_npcs(&travel_ids, &vec![]), Vec::<String>::new());
}
