use tes3map::dimensions::{calculate_dimensions, Dimensions};

fn bounds() -> Dimensions {
    Dimensions { min_x: -2, min_y: -1, max_x: 3, max_y: 1 }
}

#[test]
fn sizes_of_bounds() {
    let d = bounds();
    assert_eq!(d.width(), 6);
    assert_eq!(d.height(), 3);
    assert_eq!(d.size(), 18);
    assert_eq!(d.pixel_width(65), 390);
    assert_eq!(d.pixel_height(65), 195);
    assert_eq!(d.pixel_size(65), 390 * 195);
    assert_eq!(d.pixel_size_tuple(65), [390, 195]);
    assert_eq!(d.stride(65), 390);
}

#[test]
fn empty_bounds_have_no_cells() {
    let d = Dimensions { min_x: 5, min_y: 0, max_x: 2, max_y: 0 };
    assert_eq!(d.width(), 0);
    assert_eq!(d.height(), 1);
    assert_eq!(d.size(), 0);
    assert_eq!(d.pixel_size(16), 0);
}

#[test]
fn max_texture_resolution() {
    let d = bounds();
    // 16384 / (16 * 6) = 170
    assert_eq!(d.get_max_texture_resolution(16384), 170);
    // one cell: 8192 / 16 = 512, capped at 256
    let one = Dimensions { min_x: 0, min_y: 0, max_x: 0, max_y: 0 };
    assert_eq!(one.get_max_texture_resolution(8192), 256);
    assert_eq!(one.get_max_texture_resolution(15), 0);
}

#[test]
fn canvas_and_cells_correspond() {
    let d = bounds();
    assert_eq!(d.canvas_to_cell(0, 0), (-2, 1));
    assert_eq!(d.canvas_to_cell(5, 2), (3, -1));
    assert_eq!(d.cell_to_canvas((-2, 1)), (0, 0));
    assert_eq!(d.cell_to_canvas((3, -1)), (5, 2));
    for x in 0..6 {
        for y in 0..3 {
            let key = d.canvas_to_cell(x, y);
            assert!(d.contains_cell(key));
            assert_eq!(d.cell_to_canvas(key), (x as usize, y as usize));
        }
    }
}

#[test]
fn cell_to_canvas_clamps_at_zero() {
    let d = bounds();
    assert_eq!(d.cell_to_canvas_x(-5), 0);
    assert_eq!(d.cell_to_canvas_y(4), 0);
    assert_eq!(d.cell_to_canvas_x(1), 3);
    assert_eq!(d.cell_to_canvas_y(0), 1);
}

#[test]
fn contains_cell_checks_all_four_sides() {
    let d = bounds();
    assert!(d.contains_cell((-2, -1)));
    assert!(d.contains_cell((3, 1)));
    assert!(!d.contains_cell((-3, 0)));
    assert!(!d.contains_cell((4, 0)));
    assert!(!d.contains_cell((0, -2)));
    assert!(!d.contains_cell((0, 2)));
}

#[test]
fn calculate_dimensions_bounds_all_keys() {
    assert_eq!(calculate_dimensions(&vec![]), None);
    let keys = vec![(3, -4), (-7, 2), (0, 9), (1, 1)];
    let d = calculate_dimensions(&keys).unwrap();
    assert_eq!(d, Dimensions { min_x: -7, min_y: -4, max_x: 3, max_y: 9 });
    for k in &keys {
        assert!(d.contains_cell(*k));
    }
    let single = calculate_dimensions(&vec![(2, 5)]).unwrap();
    assert_eq!(single, Dimensions { min_x: 2, min_y: 5, max_x: 2, max_y: 5 });
}
