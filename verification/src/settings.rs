//! What the user chooses: the background, the side panel, and the settings
//! of the landscape and height map backgrounds.
use vstd::prelude::*;

use crate::color::{rgba, Rgba};
use crate::GRID_SIZE;

verus! {

/// The background image of the map; there is only ever one.
/// (`NoBackground` shows none.)
#[derive(Debug, Clone, Copy, PartialEq, Eq, Structural)]
pub enum EBackground {
    NoBackground,
    Landscape,
    HeightMap,
    GameMap,
}

impl Default for EBackground {
    fn default() -> (b: Self)
        ensures
            b == EBackground::GameMap,
    {
        EBackground::GameMap
    }
}

pub open spec fn background_suffix_spec(background: EBackground) -> Seq<char> {
    match background {
        EBackground::NoBackground => ""@,
        EBackground::Landscape => "l"@,
        EBackground::HeightMap => "h"@,
        EBackground::GameMap => "g"@,
    }
}

/// Suffix that names the background in the default file name of a saved image.
pub fn background_suffix(background: EBackground) -> (s: &'static str)
    ensures
        s@ == background_suffix_spec(background),
{
    match background {
        EBackground::NoBackground => "",
        EBackground::Landscape => "l",
        EBackground::HeightMap => "h",
        EBackground::GameMap => "g",
    }
}

/// Default file name of a saved map image: the name of the first enabled
/// plugin and the background's suffix, as in `Morrowind.esm_g.png`.
pub fn default_image_file_name(plugin_name: &str, background: EBackground) -> (name: String)
    ensures
        name@ == plugin_name@ + "_"@ + background_suffix_spec(background) + ".png"@,
{
    let mut name = String::from_str(plugin_name);
    name.append("_");
    name.append(background_suffix(background));
    name.append(".png");
    name
}

/// The view shown in the side panel.
#[derive(Clone, Copy, Debug, PartialEq, Eq, Structural)]
pub enum ESidePanelView {
    Plugins,
    Cells,
    Editor,
}

impl Default for ESidePanelView {
    fn default() -> (v: Self)
        ensures
            v == ESidePanelView::Plugins,
    {
        ESidePanelView::Plugins
    }
}

/// Settings of the textured landscape background.
#[derive(Debug, Clone, Copy, PartialEq, Eq, Structural)]
pub struct LandscapeSettings {
    /// Pixels per side of one texture tile.
    pub texture_size: usize,
    /// Tint the landscape blue where it lies under water.
    pub show_water: bool,
    /// Leave the landscape out where it lies under water.
    pub remove_water: bool,
}

impl LandscapeSettings {
    pub open spec fn spec_cell_size(self) -> int {
        self.texture_size * GRID_SIZE
    }

    /// Pixels per side of one cell: a cell is `GRID_SIZE` tiles square.
    pub fn cell_size(&self) -> (s: usize)
        requires
            self.texture_size * GRID_SIZE <= usize::MAX,
        ensures
            s == self.spec_cell_size(),
    {
        self.texture_size * GRID_SIZE
    }
}

impl Default for LandscapeSettings {
    fn default() -> (s: Self)
        ensures
            s == (LandscapeSettings { texture_size: 16, show_water: true, remove_water: false }),
    {
        LandscapeSettings { texture_size: 16, show_water: true, remove_water: false }
    }
}

/// Settings of the height map background: a base colour and a hue spread,
/// for land above and below sea level.
#[derive(Debug, Clone, Copy, PartialEq, Eq, Structural)]
pub struct HeightmapSettings {
    pub depth_spectrum: i32,
    pub depth_base: Rgba,
    pub height_spectrum: i32,
    pub height_base: Rgba,
}

impl Default for HeightmapSettings {
    fn default() -> (s: Self)
        ensures
            s == (HeightmapSettings {
                height_spectrum: -120i32,
                height_base: rgba(0, 204, 0, 255),
                depth_spectrum: 70i32,
                depth_base: rgba(0, 204, 204, 255),
            }),
    {
        HeightmapSettings {
            height_spectrum: -120,
            height_base: Rgba::from_rgb(0, 204, 0),
            depth_spectrum: 70,
            depth_base: Rgba::from_rgb(0, 204, 204),
        }
    }
}

} // verus!
