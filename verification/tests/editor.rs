use tes3map::editor::{
    clicked_segment, insert_route_point, port_name, route_checked, select_route, validate_route, Route, RouteId,
};

fn s(x: &str) -> String {
    x.to_string()
}

fn route() -> Route {
    Route {
        id: RouteId { start: s("Vivec"), destination: s("Ebonheart"), service: s("boat") },
        segments: vec![s("seg1"), s("seg2")],
    }
}

#[test]
fn route_id_is_shown_in_brackets() {
    assert_eq!(route().id.to_display_string(), "(Vivec, Ebonheart, boat)");
    assert_eq!(route().id.file_name(), "Vivec_Ebonheart.toml");
}

#[test]
fn route_is_valid_when_all_segments_exist() {
    assert!(validate_route(&route(), &vec![s("seg2"), s("x"), s("seg1")]).valid);
    assert!(!validate_route(&route(), &vec![s("seg1")]).valid);
    let empty = Route { id: RouteId::default(), segments: vec![] };
    assert!(validate_route(&empty, &vec![]).valid);
}

#[test]
fn route_is_checked_when_exactly_its_segments_are_selected() {
    let r = route();
    assert!(route_checked(&r, &vec![(s("seg1"), true), (s("seg2"), true), (s("x"), false)]));
    assert!(!route_checked(&r, &vec![(s("seg1"), true), (s("seg2"), true), (s("x"), true)]));
    assert!(!route_checked(&r, &vec![(s("seg1"), true), (s("seg2"), false)]));
    assert!(!route_checked(&r, &vec![(s("seg1"), true)]));
}

#[test]
fn selecting_a_route_selects_only_its_segments() {
    let r = route();
    let mut segments = vec![(s("x"), true), (s("seg2"), false), (s("seg1"), false)];
    select_route(&mut segments, &r, true);
    assert_eq!(segments, vec![(s("x"), false), (s("seg2"), true), (s("seg1"), true)]);
    assert!(route_checked(&r, &segments));
    select_route(&mut segments, &r, false);
    assert!(segments.iter().all(|(_, on)| !on));
}

#[test]
fn points_go_before_the_nearest_or_at_the_end() {
    let mut path = vec![10, 20, 30];
    insert_route_point(&mut path, 1, 15);
    assert_eq!(path, vec![10, 15, 20, 30]);
    insert_route_point(&mut path, 3, 40);
    assert_eq!(path, vec![10, 15, 20, 30, 40]);
    insert_route_point(&mut path, 0, 5);
    assert_eq!(path, vec![5, 10, 15, 20, 30, 40]);
    let mut pair = vec![1, 2];
    insert_route_point(&mut pair, 0, 3);
    assert_eq!(pair, vec![3, 1, 2]);
}

#[test]
fn port_names_drop_the_toml_extension() {
    assert_eq!(port_name("Balmora.toml"), "Balmora");
    assert_eq!(port_name("Sadrith Mora"), "Sadrith Mora");
    assert_eq!(port_name("a.tomlb.toml"), "ab");
    assert_eq!(port_name(".tom"), ".tom");
}

#[test]
fn clicking_a_segment_toggles_the_current_one() {
    assert_eq!(clicked_segment(&None, &"seg1".to_string()), Some("seg1".to_string()));
    assert_eq!(clicked_segment(&Some("seg2".to_string()), &"seg1".to_string()), None);
}
