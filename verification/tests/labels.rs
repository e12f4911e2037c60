use tes3map::color::{get_color_for_class, overlay_colors_half, Rgba};
use tes3map::errors::SizeMismatchError;
use tes3map::overlays::CellInfo;
use tes3map::settings::{background_suffix, default_image_file_name, EBackground, ESidePanelView, HeightmapSettings, LandscapeSettings};
use tes3map::text::{cell_list, get_cell_name, get_unique_id};

#[test]
fn cell_names() {
    let cells = vec![
        ((-3, -2), CellInfo { name: "Balmora".to_string(), region: Some("West Gash Region".to_string()) }),
        ((0, 0), CellInfo { name: "".to_string(), region: Some("Ascadian Isles Region".to_string()) }),
        ((1, 1), CellInfo { name: "".to_string(), region: None }),
    ];
    assert_eq!(get_cell_name(&cells, (-3, -2)), "Balmora (-3,-2)");
    assert_eq!(get_cell_name(&cells, (0, 0)), "Ascadian Isles Region (0,0)");
    assert_eq!(get_cell_name(&cells, (1, 1)), " (1,1)");
    assert_eq!(get_cell_name(&cells, (12, -40)), " (12,-40)");
    assert_eq!(get_cell_name(&vec![], (i32::MIN, i32::MAX)), " (-2147483648,2147483647)");
}

#[test]
fn unique_ids() {
    assert_eq!(get_unique_id("LAND", "(3, 4)"), "LAND,(3, 4)");
    assert_eq!(get_unique_id("", ""), ",");
}

#[test]
fn class_colours() {
    assert_eq!(get_color_for_class("Shipmaster"), Rgba::blue());
    assert_eq!(get_color_for_class("Caravaner"), Rgba::from_rgb(255, 215, 0));
    assert_eq!(get_color_for_class("Gondolier"), Rgba::from_rgb(160, 160, 160));
    assert_eq!(get_color_for_class("T_Mw_RiverstriderService"), Rgba::from_rgb(0xAD, 0xD8, 0xE6));
    assert_eq!(get_color_for_class("Guild Guide"), Rgba::red());
    assert_eq!(get_color_for_class("shipmaster"), Rgba::red());
}

#[test]
fn half_overlay() {
    let c = overlay_colors_half(Rgba { r: 201, g: 3, b: 0, a: 17 }, Rgba::blue());
    assert_eq!(c, Rgba { r: 100, g: 1, b: 127, a: 255 });
    let w = overlay_colors_half(Rgba::white(), Rgba::white());
    assert_eq!(w, Rgba::white());
}

#[test]
fn settings_defaults() {
    let l = LandscapeSettings::default();
    assert_eq!(l, LandscapeSettings { texture_size: 16, show_water: true, remove_water: false });
    assert_eq!(l.cell_size(), 256);
    let h = HeightmapSettings::default();
    assert_eq!(h.height_spectrum, -120);
    assert_eq!(h.height_base, Rgba::from_rgb(0, 204, 0));
    assert_eq!(h.depth_spectrum, 70);
    assert_eq!(h.depth_base, Rgba::from_rgb(0, 204, 204));
    assert_eq!(EBackground::default(), EBackground::GameMap);
    assert_eq!(ESidePanelView::default(), ESidePanelView::Plugins);
}

#[test]
fn background_suffixes() {
    assert_eq!(background_suffix(EBackground::NoBackground), "");
    assert_eq!(background_suffix(EBackground::Landscape), "l");
    assert_eq!(background_suffix(EBackground::HeightMap), "h");
    assert_eq!(background_suffix(EBackground::GameMap), "g");
}

#[test]
fn size_mismatch_message() {
    assert_eq!(SizeMismatchError.message(), "Image sizes do not match!");
}

#[test]
fn default_image_names() {
    assert_eq!(default_image_file_name("Morrowind.esm", EBackground::GameMap), "Morrowind.esm_g.png");
    assert_eq!(default_image_file_name("a.esp", EBackground::NoBackground), "a.esp_.png");
}

#[test]
fn cell_list_is_sorted_and_filtered() {
    let cells = vec![
        ((2, -1), "Vivec".to_string()),
        ((-3, -2), "Balmora".to_string()),
        ((-3, -5), "".to_string()),
        ((0, 7), "Ald'ruhn".to_string()),
    ];
    let all = cell_list(&cells, "");
    assert_eq!(
        all,
        vec![
            ((-3, -5), "(-3, -5) - ".to_string()),
            ((-3, -2), "(-3, -2) - Balmora".to_string()),
            ((0, 7), "(0, 7) - Ald'ruhn".to_string()),
            ((2, -1), "(2, -1) - Vivec".to_string()),
        ]
    );
    let some = cell_list(&cells, "BAL");
    assert_eq!(some, vec![((-3, -2), "(-3, -2) - Balmora".to_string())]);
    let by_key = cell_list(&cells, "(-3,");
    assert_eq!(by_key.len(), 2);
    assert_eq!(cell_list(&cells, "sadrith"), vec![]);
    // the label is the key's Debug form
    assert_eq!(all[0].1, format!("{:?} - {}", (-3, -5), ""));
}
