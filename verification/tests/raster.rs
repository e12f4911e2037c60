use tes3map::color::Rgba;
use tes3map::dimensions::Dimensions;
use tes3map::raster::{color_map_to_pixels, height_from_screen_space, height_map_to_pixel_heights};

fn grid(f: impl Fn(usize, usize) -> f32) -> Vec<f32> {
    let mut v = Vec::new();
    for y in 0..65 {
        for x in 0..65 {
            v.push(f(x, y));
        }
    }
    v
}

#[test]
fn single_cell_is_flipped_vertically() {
    let d = Dimensions { min_x: 0, min_y: 0, max_x: 0, max_y: 0 };
    let g = grid(|x, y| (y * 100 + x) as f32);
    let pixels = height_map_to_pixel_heights(&d, &vec![((0, 0), g)], -1.0f32);
    assert_eq!(pixels.len(), 65 * 65);
    // top row of the image is the last row of the grid
    assert_eq!(pixels[0], 6400.0);
    assert_eq!(pixels[64], 6464.0);
    // bottom row of the image is the first row of the grid
    assert_eq!(pixels[64 * 65], 0.0);
    assert_eq!(pixels[64 * 65 + 7], 7.0);
}

#[test]
fn missing_cells_are_filled() {
    // two cells side by side, only the right one has data
    let d = Dimensions { min_x: 0, min_y: 0, max_x: 1, max_y: 0 };
    let g = grid(|_, _| 5.0);
    let pixels = height_map_to_pixel_heights(&d, &vec![((1, 0), g)], -9.0f32);
    assert_eq!(pixels.len(), 2 * 65 * 65);
    let stride = 130;
    for y in 0..65 {
        assert_eq!(pixels[y * stride], -9.0);
        assert_eq!(pixels[y * stride + 64], -9.0);
        assert_eq!(pixels[y * stride + 65], 5.0);
        assert_eq!(pixels[y * stride + 129], 5.0);
    }
}

#[test]
fn cells_outside_the_bounds_are_ignored() {
    let d = Dimensions { min_x: 0, min_y: 0, max_x: 0, max_y: 0 };
    let pixels = height_map_to_pixel_heights(&d, &vec![((4, 4), grid(|_, _| 1.0))], 0.0f32);
    assert!(pixels.iter().all(|p| *p == 0.0));
}

#[test]
fn rows_of_cells_run_from_max_y_down() {
    let d = Dimensions { min_x: 0, min_y: 0, max_x: 0, max_y: 1 };
    let top = grid(|_, _| 1.0);
    let bottom = grid(|_, _| 2.0);
    let pixels = height_map_to_pixel_heights(&d, &vec![((0, 0), bottom), ((0, 1), top)], 0.0f32);
    assert_eq!(pixels[0], 1.0);
    assert_eq!(pixels[64 * 65], 1.0);
    assert_eq!(pixels[65 * 65], 2.0);
    assert_eq!(pixels[2 * 65 * 65 - 1], 2.0);
}

#[test]
fn read_back_gives_the_vertex() {
    let d = Dimensions { min_x: -1, min_y: -1, max_x: 1, max_y: 0 };
    let g = grid(|x, y| (x * 1000 + y) as f32);
    let pixels = height_map_to_pixel_heights(&d, &vec![((1, -1), g)], -100.0f32);
    // cell (1, -1) is at canvas (2, 1)
    for (vx, vy) in [(0usize, 0usize), (3, 17), (64, 64), (10, 0)] {
        let sx = 65 * 2 + vx;
        let sy = 65 * 1 + (64 - vy);
        assert_eq!(
            height_from_screen_space(&pixels, &d, sx, sy),
            Some((vx * 1000 + vy) as f32)
        );
    }
    assert_eq!(height_from_screen_space(&pixels, &d, 0, 130), None);
    assert_eq!(height_from_screen_space(&pixels, &d, 0, 0), Some(-100.0));
}

#[test]
fn colour_map_defaults_to_transparent() {
    let d = Dimensions { min_x: 0, min_y: 0, max_x: 1, max_y: 0 };
    let red = Rgba::red();
    let colours = vec![red; 65 * 65];
    let pixels = color_map_to_pixels(&d, &vec![((0, 0), colours)]);
    assert_eq!(pixels.len(), 2 * 65 * 65);
    assert_eq!(pixels[0], red);
    assert_eq!(pixels[65], Rgba::transparent());
    assert_eq!(pixels[129], Rgba { r: 0, g: 0, b: 0, a: 0 });
}
