//! Map rendering logic for Morrowind (TES3) plugin data: the cell grid and its
//! canvas coordinates, the rasterisation of per-cell vertex data into images,
//! landscape texture composition, cell selection and the bookkeeping done
//! when plugins are loaded.
use vstd::prelude::*;

pub mod color;
pub mod conflicts;
pub mod dimensions;
pub mod editor;
pub mod errors;
pub mod images;
pub mod landscape;
pub mod lookup;
pub mod overlays;
pub mod plugins;
pub mod raster;
pub mod selection;
pub mod settings;
pub mod text;
pub mod travel;

verus! {

/// Number of texture tiles along one side of a cell.
pub const GRID_SIZE: usize = 16;

/// Number of height/colour vertices along one side of a cell.
pub const VERTEX_CNT: usize = 65;

/// Grid coordinates of an exterior cell.
pub type CellKey = (i32, i32);

} // verus!
