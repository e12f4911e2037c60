use tes3map::color::Rgba;
use tes3map::dimensions::Dimensions;
use tes3map::overlays::{get_conflict_cells, get_grid_cells, get_region_cells, CellInfo};

#[test]
fn grid_cells_row_by_row() {
    let d = Dimensions { min_x: -1, min_y: 4, max_x: 1, max_y: 5 };
    assert_eq!(get_grid_cells(&d), vec![(-1, 4), (0, 4), (1, 4), (-1, 5), (0, 5), (1, 5)]);
    let empty = Dimensions { min_x: 1, min_y: 0, max_x: 0, max_y: 0 };
    assert!(get_grid_cells(&empty).is_empty());
}

#[test]
fn conflict_cells_inside_the_bounds() {
    let d = Dimensions { min_x: 0, min_y: 0, max_x: 2, max_y: 2 };
    let keys = vec![(1, 1), (3, 1), (0, 2), (-1, 0), (2, 0)];
    assert_eq!(get_conflict_cells(&d, &keys), vec![(1, 1), (0, 2), (2, 0)]);
}

#[test]
fn region_cells_use_the_region_colour() {
    let d = Dimensions { min_x: 0, min_y: 0, max_x: 1, max_y: 1 };
    let ash = Rgba::from_rgb(80, 80, 80);
    let isles = Rgba::from_rgb(0, 120, 0);
    let regions = vec![("Ashlands".to_string(), ash), ("Isles".to_string(), isles)];
    let cells = vec![
        ((1, 1), CellInfo { name: "".to_string(), region: Some("Isles".to_string()) }),
        ((0, 0), CellInfo { name: "".to_string(), region: Some("Ashlands".to_string()) }),
        ((1, 0), CellInfo { name: "".to_string(), region: Some("Unknown".to_string()) }),
        ((0, 1), CellInfo { name: "".to_string(), region: None }),
        ((7, 7), CellInfo { name: "".to_string(), region: Some("Isles".to_string()) }),
    ];
    assert_eq!(get_region_cells(&d, &regions, &cells), vec![((0, 0), ash), ((1, 1), isles)]);
}
