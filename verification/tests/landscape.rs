use tes3map::color::Rgba;
use tes3map::dimensions::Dimensions;
use tes3map::landscape::{
    compute_landscape_image, texture_map_plan, texture_tile_index, textures_to_load, Landscape,
    Texture, TexturePlan,
};
use tes3map::settings::LandscapeSettings;

fn solid(c: Rgba, side: usize) -> Texture {
    Texture { width: side, height: side, pixels: vec![c; side * side] }
}

fn indices(f: impl Fn(usize, usize) -> u16) -> Vec<u16> {
    let mut v = Vec::new();
    for dy in 0..16 {
        for dx in 0..16 {
            v.push(f(dx, dy));
        }
    }
    v
}

#[test]
fn tile_index_is_its_own_inverse() {
    let mut seen = vec![false; 256];
    for gx in 0..16 {
        for gy in 0..16 {
            let (dx, dy) = texture_tile_index(gx, gy);
            assert!(dx < 16 && dy < 16);
            assert_eq!(texture_tile_index(dx, dy), (gx, gy));
            seen[dy * 16 + dx] = true;
        }
    }
    assert!(seen.iter().all(|s| *s));
    assert_eq!(texture_tile_index(5, 9), (4 * 1 + 1, 4 * 2 + 1));
}

#[test]
fn single_textured_cell() {
    let settings = LandscapeSettings { texture_size: 1, show_water: false, remove_water: false };
    let d = Dimensions { min_x: 0, min_y: 0, max_x: 0, max_y: 0 };
    // every tile uses texture key 7, except the tile stored at (0, 0)
    let land = Landscape {
        uses_textures: true,
        texture_indices: indices(|dx, dy| if dx == 0 && dy == 0 { 9 } else { 7 }),
    };
    let ltex = vec![(7u32, "grass".to_string()), (9u32, "rock".to_string())];
    let green = Rgba::from_rgb(0, 200, 0);
    let grey = Rgba::from_rgb(90, 90, 90);
    let textures = vec![("grass".to_string(), solid(green, 1)), ("rock".to_string(), solid(grey, 1))];
    let pixels = compute_landscape_image(&settings, &d, &vec![((0, 0), land)], &ltex, &textures, &vec![]);
    assert_eq!(pixels.len(), 16 * 16);
    // tile (0, 0) is stored at (0, 0) and drawn in the bottom-left pixel
    assert_eq!(pixels[15 * 16], grey);
    assert_eq!(pixels[0], green);
    assert_eq!(pixels[15 * 16 + 1], green);
    assert_eq!(pixels.iter().filter(|p| **p == grey).count(), 1);
}

#[test]
fn unknown_textures_and_missing_cells_are_transparent() {
    let settings = LandscapeSettings { texture_size: 2, show_water: false, remove_water: false };
    let d = Dimensions { min_x: 0, min_y: 0, max_x: 1, max_y: 0 };
    let land = Landscape { uses_textures: true, texture_indices: indices(|_, _| 3) };
    let ltex = vec![(3u32, "".to_string())];
    let textures = vec![("".to_string(), solid(Rgba::white(), 2))];
    let pixels = compute_landscape_image(&settings, &d, &vec![((1, 0), land)], &ltex, &textures, &vec![]);
    assert_eq!(pixels.len(), 64 * 32);
    assert!(pixels.iter().all(|p| *p == Rgba::transparent()));
}

#[test]
fn texture_pixels_are_placed_within_tiles() {
    let settings = LandscapeSettings { texture_size: 2, show_water: false, remove_water: false };
    let d = Dimensions { min_x: 0, min_y: 0, max_x: 0, max_y: 0 };
    let land = Landscape { uses_textures: true, texture_indices: indices(|_, _| 1) };
    let a = Rgba::from_rgb(1, 0, 0);
    let b = Rgba::from_rgb(2, 0, 0);
    let c = Rgba::from_rgb(3, 0, 0);
    let e = Rgba::from_rgb(4, 0, 0);
    let tex = Texture { width: 2, height: 2, pixels: vec![a, b, c, e] };
    let pixels = compute_landscape_image(
        &settings,
        &d,
        &vec![((0, 0), land)],
        &vec![(1u32, "t".to_string())],
        &vec![("t".to_string(), tex)],
        &vec![],
    );
    assert_eq!(pixels.len(), 32 * 32);
    assert_eq!(pixels[0], a);
    assert_eq!(pixels[1], b);
    assert_eq!(pixels[32], c);
    assert_eq!(pixels[33], e);
    assert_eq!(pixels[2], a);
    assert_eq!(pixels[32 * 31 + 31], e);
}

#[test]
fn water_tints_or_removes() {
    let d = Dimensions { min_x: 0, min_y: 0, max_x: 0, max_y: 0 };
    let land = Landscape { uses_textures: true, texture_indices: indices(|_, _| 1) };
    let ltex = vec![(1u32, "t".to_string())];
    let textures = vec![("t".to_string(), solid(Rgba::from_rgb(100, 51, 1), 1))];
    // everything under water
    let water = vec![true; 65 * 65];
    let tint = LandscapeSettings { texture_size: 1, show_water: true, remove_water: false };
    let pixels = compute_landscape_image(&tint, &d, &vec![((0, 0), land.clone())], &ltex, &textures, &water);
    assert!(pixels.iter().all(|p| *p == Rgba { r: 50, g: 25, b: 128, a: 255 }));
    let remove = LandscapeSettings { texture_size: 1, show_water: true, remove_water: true };
    let pixels = compute_landscape_image(&remove, &d, &vec![((0, 0), land.clone())], &ltex, &textures, &water);
    assert!(pixels.iter().all(|p| *p == Rgba::transparent()));
    let off = LandscapeSettings { texture_size: 1, show_water: false, remove_water: true };
    let pixels = compute_landscape_image(&off, &d, &vec![((0, 0), land.clone())], &ltex, &textures, &water);
    assert!(pixels.iter().all(|p| *p == Rgba::from_rgb(100, 51, 1)));
    // dry land, or no heights at all
    let dry = vec![false; 65 * 65];
    let pixels = compute_landscape_image(&tint, &d, &vec![((0, 0), land.clone())], &ltex, &textures, &dry);
    assert!(pixels.iter().all(|p| *p == Rgba::from_rgb(100, 51, 1)));
    let pixels = compute_landscape_image(&tint, &d, &vec![((0, 0), land)], &ltex, &textures, &vec![]);
    assert!(pixels.iter().all(|p| *p == Rgba::from_rgb(100, 51, 1)));
}

#[test]
fn untextured_landscape_is_transparent() {
    let settings = LandscapeSettings { texture_size: 1, show_water: false, remove_water: false };
    let d = Dimensions { min_x: 0, min_y: 0, max_x: 0, max_y: 0 };
    let land = Landscape { uses_textures: false, texture_indices: indices(|_, _| 1) };
    let pixels = compute_landscape_image(
        &settings,
        &d,
        &vec![((0, 0), land)],
        &vec![(1u32, "t".to_string())],
        &vec![("t".to_string(), solid(Rgba::white(), 1))],
        &vec![],
    );
    assert!(pixels.iter().all(|p| *p == Rgba::transparent()));
}

#[test]
fn texture_plan_keeps_a_loaded_map() {
    let d = Dimensions { min_x: 0, min_y: 0, max_x: 3, max_y: 1 };
    // max resolution 16384 / (16 * 4) = 256
    let plan = texture_map_plan(&d, 16384, 16, 16);
    assert_eq!(plan, TexturePlan { reload: false, texture_size: 16, too_large: false });
}

#[test]
fn texture_plan_reloads_at_the_requested_size() {
    let d = Dimensions { min_x: 0, min_y: 0, max_x: 3, max_y: 1 };
    let plan = texture_map_plan(&d, 16384, 16, 32);
    assert_eq!(plan, TexturePlan { reload: true, texture_size: 32, too_large: false });
}

#[test]
fn texture_plan_lowers_a_size_that_does_not_fit() {
    let d = Dimensions { min_x: 0, min_y: 0, max_x: 9, max_y: 0 };
    // 10 cells of 16 * 64 pixels are wider than 4096; 4096 / 160 = 25
    let plan = texture_map_plan(&d, 4096, 0, 64);
    assert_eq!(plan, TexturePlan { reload: true, texture_size: 16, too_large: true });
    // 1000 / 160 = 6
    let plan = texture_map_plan(&d, 1000, 0, 64);
    assert_eq!(plan, TexturePlan { reload: true, texture_size: 6, too_large: true });
}

#[test]
fn textures_to_load_are_distinct_in_first_use_order() {
    let d = Dimensions { min_x: 0, min_y: 0, max_x: 1, max_y: 1 };
    let ltex = vec![
        (1u32, "a".to_string()),
        (2u32, "b".to_string()),
        (3u32, "a".to_string()),
        (4u32, "c".to_string()),
    ];
    let lands = vec![
        // row y = 1 comes after row y = 0
        ((0, 1), Landscape { uses_textures: true, texture_indices: indices(|_, _| 4) }),
        ((1, 0), Landscape { uses_textures: true, texture_indices: indices(|dx, _| if dx == 0 { 2 } else { 3 }) }),
        ((0, 0), Landscape { uses_textures: true, texture_indices: indices(|_, _| 9) }),
        ((1, 1), Landscape { uses_textures: false, texture_indices: indices(|_, _| 1) }),
    ];
    let names = textures_to_load(&d, &lands, &ltex);
    // cell (1, 0): tile (gx = 0, gy = 0) is stored at dx = 0, so "b" comes first
    assert_eq!(names, vec!["b".to_string(), "a".to_string(), "c".to_string()]);
}

#[test]
fn unused_textures_may_be_small() {
    let settings = LandscapeSettings { texture_size: 2, show_water: false, remove_water: false };
    let d = Dimensions { min_x: 0, min_y: 0, max_x: 0, max_y: 0 };
    let land = Landscape { uses_textures: true, texture_indices: indices(|_, _| 7) };
    // a record outside the bounds uses the tiny texture; no shown tile does
    let far = Landscape { uses_textures: true, texture_indices: indices(|_, _| 8) };
    let ltex = vec![(7u32, "grass".to_string()), (8u32, "tiny".to_string())];
    let green = Rgba::from_rgb(0, 200, 0);
    let textures = vec![
        ("grass".to_string(), solid(green, 2)),
        ("tiny".to_string(), solid(Rgba::from_rgb(1, 2, 3), 0)),
    ];
    let pixels = compute_landscape_image(
        &settings,
        &d,
        &vec![((0, 0), land), ((5, 5), far)],
        &ltex,
        &textures,
        &vec![],
    );
    assert_eq!(pixels.len(), 32 * 32);
    assert!(pixels.iter().all(|p| *p == green));
}
