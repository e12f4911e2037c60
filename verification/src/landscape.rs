//! The textured landscape background: every cell is a grid of texture tiles,
//! optionally tinted where the land lies under water.
use vstd::prelude::*;
use vstd::arithmetic::div_mod::{
    lemma_div_pos_is_pos, lemma_fundamental_div_mod, lemma_fundamental_div_mod_converse, lemma_mod_bound,
    lemma_multiply_divide_lt,
};

use crate::color::{half_sum, overlay_colors_half, rgba, Rgba};
use crate::dimensions::Dimensions;
use crate::raster::{
    cell_slot_table, height_from_screen_space, lemma_pixel_cell, lemma_table_entry, distinct_keys, entry_at, raster_fits, same_cell, screen_index, slot_key,
    slot_table_ok,
};
use crate::lookup::{
    distinct_indices, distinct_names, find_index, find_key, find_name, find_named,
};
use crate::lookup::find_cell;
use crate::overlays::{get_grid_cells, grid_seq, lemma_filter_map_has, lemma_grid_has};
use crate::settings::LandscapeSettings;
use crate::{CellKey, GRID_SIZE, VERTEX_CNT};

verus! {

/// What the texture composition reads of a landscape record.
#[derive(Debug, Clone, PartialEq, Eq)]
pub struct Landscape {
    /// The record has texture indices.
    pub uses_textures: bool,
    /// `GRID_SIZE * GRID_SIZE` texture indices, row by row (`[dy * 16 + dx]`).
    pub texture_indices: Vec<u16>,
}

/// An RGBA texture, row by row.
#[derive(Debug, Clone, PartialEq, Eq)]
pub struct Texture {
    pub width: usize,
    pub height: usize,
    pub pixels: Vec<Rgba>,
}

impl Texture {
    pub open spec fn wf(self) -> bool {
        self.pixels@.len() == self.width * self.height
    }

    pub open spec fn spec_pixel(self, x: int, y: int) -> Rgba {
        self.pixels@[y * self.width + x]
    }

    /// The pixel at column `x`, row `y`.
    pub fn get_pixel(&self, x: usize, y: usize) -> (p: Rgba)
        requires
            self.wf(),
            x < self.width,
            y < self.height,
        ensures
            p == self.spec_pixel(x as int, y as int),
    {
        let n = self.pixels.len();
        proof {
            assert(0 <= y * self.width <= y * self.width + x < self.width * self.height) by (nonlinear_arith)
                requires
                    x < self.width,
                    y < self.height,
            ;
        }
        self.pixels[y * self.width + x]
    }
}

/// Where the texture index of tile `(gx, gy)` is stored: tiles are kept in
/// 4 x 4 blocks of 4 x 4 tiles.
pub open spec fn spec_tile_index(gx: int, gy: int) -> (int, int) {
    (4 * (gy % 4) + gx % 4, 4 * (gy / 4) + gx / 4)
}

/// Storage position `(dx, dy)` of the texture index of tile `(gx, gy)`.
pub fn texture_tile_index(gx: usize, gy: usize) -> (p: (usize, usize))
    requires
        gx < GRID_SIZE,
        gy < GRID_SIZE,
    ensures
        p.0 == spec_tile_index(gx as int, gy as int).0,
        p.1 == spec_tile_index(gx as int, gy as int).1,
        p.0 == 4 * (gy % 4) + gx % 4,
        p.1 == 4 * (gy / 4) + gx / 4,
        p.0 < GRID_SIZE,
        p.1 < GRID_SIZE,
{
    ((4 * (gy % 4)) + (gx % 4), (4 * (gy / 4)) + (gx / 4))
}

/// Law: the storage order of texture tiles is its own inverse, so it is a
/// one-to-one correspondence of the 16 x 16 tiles.
pub proof fn lemma_tile_index_involution(gx: int, gy: int)
    requires
        0 <= gx < 16,
        0 <= gy < 16,
    ensures
        0 <= spec_tile_index(gx, gy).0 < 16,
        0 <= spec_tile_index(gx, gy).1 < 16,
        spec_tile_index(spec_tile_index(gx, gy).0, spec_tile_index(gx, gy).1) == (gx, gy),
{
    let (dx, dy) = spec_tile_index(gx, gy);
    assert(dx % 4 == gx % 4 && dx / 4 == gy % 4) by {
        lemma_fundamental_div_mod(gx, 4);
        lemma_fundamental_div_mod(gy, 4);
    }
    assert(dy % 4 == gx / 4 && dy / 4 == gy / 4) by {
        lemma_fundamental_div_mod(gx, 4);
        lemma_fundamental_div_mod(gy, 4);
    }
}

/// Key of the landscape texture of tile `(gx, gy)`.
pub open spec fn tile_key(indices: Seq<u16>, gx: int, gy: int) -> u32 {
    let (dx, dy) = spec_tile_index(gx, gy);
    indices[dy * 16 + dx] as u32
}

/// Law: tiles are stored in 4 x 4 blocks of 4 x 4 tiles: the texture key of
/// tile `(gx, gy)` is the index array's entry at row `4 * (gy / 4) + gx / 4`,
/// column `4 * (gy % 4) + gx % 4`.  So tile `(4, 0)` is stored at row 1,
/// column 0, and tile `(1, 0)` at row 0, column 1.
pub proof fn lemma_tile_storage(indices: Seq<u16>, gx: int, gy: int)
    requires
        0 <= gx < 16,
        0 <= gy < 16,
    ensures
        tile_key(indices, gx, gy) == indices[(4 * (gy / 4) + gx / 4) * 16 + 4 * (gy % 4) + gx % 4] as u32,
        0 <= (4 * (gy / 4) + gx / 4) * 16 + 4 * (gy % 4) + gx % 4 < 256,
{
    lemma_tile_index_involution(gx, gy);
}

/// The texture shown for a landscape texture key: the texture named by the
/// key's record, when the record has a non-empty name.
pub open spec fn texture_of(
    ltex: Seq<(u32, String)>,
    textures: Seq<(String, Texture)>,
    key: u32,
) -> Option<int> {
    match find_key(ltex, key) {
        Some(e) => if ltex[e].1@.len() == 0 {
            None
        } else {
            find_name(textures, ltex[e].1@)
        },
        None => None,
    }
}

/// For each landscape texture record, the texture it shows.
fn ltex_texture_table(ltex_records: &Vec<(u32, String)>, textures: &Vec<(String, Texture)>) -> (table: Vec<Option<usize>>)
    requires
        distinct_indices(ltex_records@),
        distinct_names(textures@),
    ensures
        table@.len() == ltex_records@.len(),
        forall|e: int|
            0 <= e < table@.len() ==> match #[trigger] table@[e] {
                Some(t) => ltex_records@[e].1@.len() != 0 && find_name(textures@, ltex_records@[e].1@)
                    == Some(t as int),
                None => ltex_records@[e].1@.len() == 0 || find_name(textures@, ltex_records@[e].1@) is None,
            },
{
    let mut table: Vec<Option<usize>> = Vec::new();
    let mut e: usize = 0;
    while e < ltex_records.len()
        invariant
            distinct_names(textures@),
            e <= ltex_records.len(),
            table@.len() == e,
            forall|k: int|
                0 <= k < e ==> match #[trigger] table@[k] {
                    Some(t) => ltex_records@[k].1@.len() != 0 && find_name(textures@, ltex_records@[k].1@)
                        == Some(t as int),
                    None => ltex_records@[k].1@.len() == 0 || find_name(textures@, ltex_records@[k].1@) is None,
                },
        decreases ltex_records.len() - e,
    {
        let name = &ltex_records[e].1;
        let t = if name.as_str().is_empty() {
            None
        } else {
            find_named(textures, name)
        };
        table.push(t);
        e = e + 1;
    }
    table
}

/// An optional index matches an optional entry position.
pub open spec fn same_entry(o: Option<usize>, e: Option<int>) -> bool {
    match o {
        Some(x) => e == Some(x as int),
        None => e is None,
    }
}

/// For each landscape that uses textures, the texture of each of its tiles,
/// tile `(gx, gy)` at `[gy * 16 + gx]`.
fn tile_texture_table(
    landscape_records: &Vec<(CellKey, Landscape)>,
    ltex_records: &Vec<(u32, String)>,
    textures: &Vec<(String, Texture)>,
) -> (tiles: Vec<Vec<Option<usize>>>)
    requires
        distinct_indices(ltex_records@),
        distinct_names(textures@),
        forall|j: int|
            0 <= j < landscape_records@.len() ==> (#[trigger] landscape_records@[j]).1.texture_indices@.len()
                == 256,
    ensures
        tiles@.len() == landscape_records@.len(),
        forall|j: int|
            0 <= j < tiles@.len() && (#[trigger] landscape_records@[j]).1.uses_textures ==> {
                &&& tiles@[j]@.len() == 256
                &&& forall|t: int|
                    0 <= t < 256 ==> same_entry(
                        #[trigger] tiles@[j]@[t],
                        texture_of(
                            ltex_records@,
                            textures@,
                            tile_key(landscape_records@[j].1.texture_indices@, t % 16, t / 16),
                        ),
                    )
            },
{
    let ltex_tex = ltex_texture_table(ltex_records, textures);
    let mut tiles: Vec<Vec<Option<usize>>> = Vec::new();
    let mut j: usize = 0;
    while j < landscape_records.len()
        invariant
            distinct_indices(ltex_records@),
            distinct_names(textures@),
            forall|k: int|
                0 <= k < landscape_records@.len() ==> (#[trigger] landscape_records@[k]).1.texture_indices@.len()
                    == 256,
            ltex_tex@.len() == ltex_records@.len(),
            forall|e: int|
                0 <= e < ltex_tex@.len() ==> match #[trigger] ltex_tex@[e] {
                    Some(t) => ltex_records@[e].1@.len() != 0 && find_name(textures@, ltex_records@[e].1@)
                        == Some(t as int),
                    None => ltex_records@[e].1@.len() == 0 || find_name(textures@, ltex_records@[e].1@)
                        is None,
                },
            j <= landscape_records.len(),
            tiles@.len() == j,
            forall|k: int|
                0 <= k < j && (#[trigger] landscape_records@[k]).1.uses_textures ==> {
                    &&& tiles@[k]@.len() == 256
                    &&& forall|t: int|
                        0 <= t < 256 ==> same_entry(
                            #[trigger] tiles@[k]@[t],
                            texture_of(
                                ltex_records@,
                                textures@,
                                tile_key(landscape_records@[k].1.texture_indices@, t % 16, t / 16),
                            ),
                        )
                },
        decreases landscape_records.len() - j,
    {
        let land = &landscape_records[j].1;
        let mut row: Vec<Option<usize>> = Vec::new();
        if land.uses_textures {
            let mut t: usize = 0;
            while t < 256
                invariant
                    distinct_indices(ltex_records@),
                    land.texture_indices@.len() == 256,
                    ltex_tex@.len() == ltex_records@.len(),
                    forall|e: int|
                        0 <= e < ltex_tex@.len() ==> match #[trigger] ltex_tex@[e] {
                            Some(x) => ltex_records@[e].1@.len() != 0 && find_name(
                                textures@,
                                ltex_records@[e].1@,
                            ) == Some(x as int),
                            None => ltex_records@[e].1@.len() == 0 || find_name(
                                textures@,
                                ltex_records@[e].1@,
                            ) is None,
                        },
                    t <= 256,
                    row@.len() == t,
                    forall|u: int|
                        0 <= u < t ==> same_entry(
                            #[trigger] row@[u],
                            texture_of(
                                ltex_records@,
                                textures@,
                                tile_key(land.texture_indices@, u % 16, u / 16),
                            ),
                        ),
                decreases 256 - t,
            {
                let (dx, dy) = texture_tile_index(t % 16, t / 16);
                let key = land.texture_indices[dy * 16 + dx] as u32;
                let tex = match find_index(ltex_records, key) {
                    Some(e) => ltex_tex[e],
                    None => None,
                };
                row.push(tex);
                t = t + 1;
            }
        }
        tiles.push(row);
        j = j + 1;
    }
    tiles
}

/// The landscape image and the vertex raster of the bounds fit in memory.
pub open spec fn landscape_fits(d: Dimensions, texture_size: int) -> bool {
    let cs = texture_size * 16;
    &&& cs <= usize::MAX
    &&& raster_fits(d, cs)
    &&& raster_fits(d, VERTEX_CNT as int)
    &&& d.spec_width() * cs * 65 <= usize::MAX
    &&& d.spec_height() * cs * 65 <= usize::MAX
}

/// `color` at image position `(tx, ty)`, tinted blue (or left out) when the
/// vertex raster marks the land there as under water.
pub open spec fn water_tint(
    settings: LandscapeSettings,
    d: Dimensions,
    water: Seq<bool>,
    tx: int,
    ty: int,
    color: Rgba,
) -> Rgba {
    let cs = settings.texture_size * 16;
    let i = screen_index(d, tx * 65 / cs, ty * 65 / cs);
    if settings.show_water && 0 <= i < water.len() && water[i] {
        if settings.remove_water {
            rgba(0, 0, 0, 0)
        } else {
            rgba(half_sum(color.r, 0), half_sum(color.g, 0), half_sum(color.b, 255), 255)
        }
    } else {
        color
    }
}

/// Texture `t` is shown by some tile `(gx, gy)` of a cell inside the bounds
/// whose landscape record uses textures.
pub open spec fn shown_texture(
    d: Dimensions,
    lands: Seq<(CellKey, Landscape)>,
    ltex: Seq<(u32, String)>,
    textures: Seq<(String, Texture)>,
    t: int,
) -> bool {
    exists|j: int, gx: int, gy: int|
        #![trigger lands[j], tile_key(lands[j].1.texture_indices@, gx, gy)]
        0 <= j < lands.len() && d.has_cell(lands[j].0) && lands[j].1.uses_textures && 0 <= gx < 16
            && 0 <= gy < 16 && texture_of(ltex, textures, tile_key(lands[j].1.texture_indices@, gx, gy))
            == Some(t)
}

/// Every texture that a shown tile uses can be read at the texture size.
pub open spec fn shown_textures_fit(
    d: Dimensions,
    lands: Seq<(CellKey, Landscape)>,
    ltex: Seq<(u32, String)>,
    textures: Seq<(String, Texture)>,
    ts: int,
) -> bool {
    forall|t: int|
        0 <= t < textures.len() && #[trigger] shown_texture(d, lands, ltex, textures, t) ==> {
            &&& textures[t].1.wf()
            &&& textures[t].1.width >= ts
            &&& textures[t].1.height >= ts
        }
}

/// Pixel `i` of the landscape image.  The image shows the cells of the bounds,
/// each `16 * texture_size` pixels square and made of 16 x 16 tiles, tile
/// rows counted from the bottom; a tile shows its texture when the cell has a
/// landscape record that uses textures and the tile's texture is known, and
/// is transparent otherwise.
pub open spec fn landscape_pixel(
    settings: LandscapeSettings,
    d: Dimensions,
    lands: Seq<(CellKey, Landscape)>,
    ltex: Seq<(u32, String)>,
    textures: Seq<(String, Texture)>,
    water: Seq<bool>,
    i: int,
) -> Rgba {
    let ts = settings.texture_size as int;
    let cs = ts * 16;
    let width = d.spec_width() * cs;
    let tx = i % width;
    let ty = i / width;
    let cell = slot_key(d, (ty / cs) * d.spec_width() + tx / cs);
    let gx = (tx % cs) / ts;
    let gy = 15 - (ty % cs) / ts;
    let x = (tx % cs) % ts;
    let y = (ty % cs) % ts;
    match entry_at(lands, cell) {
        Some(j) => if lands[j].1.uses_textures {
            match texture_of(ltex, textures, tile_key(lands[j].1.texture_indices@, gx, gy)) {
                Some(t) => water_tint(settings, d, water, tx, ty, textures[t].1.spec_pixel(x, y)),
                None => rgba(0, 0, 0, 0),
            }
        } else {
            rgba(0, 0, 0, 0)
        },
        None => rgba(0, 0, 0, 0),
    }
}

/// Position in the landscape image of pixel `(x, y)` of texture tile
/// `(gx, gy)` of cell `key`, with tiles `ts` pixels square: cells are
/// `16 * ts` pixels square, columns from `min_x`, rows from `max_y` down,
/// and tile rows counted from the bottom of the cell.
pub open spec fn tile_pixel_index(d: Dimensions, ts: int, key: CellKey, gx: int, gy: int, x: int, y: int) -> int {
    let cs = 16 * ts;
    let tx = (key.0 - d.min_x) * cs + gx * ts + x;
    let ty = (d.max_y - key.1) * cs + (15 - gy) * ts + y;
    ty * (d.spec_width() * cs) + tx
}

/// Law: pixel `(x, y)` of tile `(gx, gy)` of a shown cell whose landscape
/// uses textures shows pixel `(x, y)` of the texture whose key is stored at
/// row `4 * (gy / 4) + gx / 4`, column `4 * (gy % 4) + gx % 4` of the
/// cell's index array (tinted where under water), and is transparent when
/// that key names no loaded texture.
pub proof fn lemma_landscape_layout(
    settings: LandscapeSettings,
    d: Dimensions,
    lands: Seq<(CellKey, Landscape)>,
    ltex: Seq<(u32, String)>,
    textures: Seq<(String, Texture)>,
    water: Seq<bool>,
    j: int,
    gx: int,
    gy: int,
    x: int,
    y: int,
)
    requires
        distinct_keys(lands),
        0 <= j < lands.len(),
        d.has_cell(lands[j].0),
        lands[j].1.uses_textures,
        0 <= gx < 16,
        0 <= gy < 16,
        0 <= x < settings.texture_size,
        0 <= y < settings.texture_size,
    ensures
        ({
            let ts = settings.texture_size as int;
            let key = lands[j].0;
            let i = tile_pixel_index(d, ts, key, gx, gy, x, y);
            let stored = lands[j].1.texture_indices@[(4 * (gy / 4) + gx / 4) * 16 + 4 * (gy % 4) + gx % 4];
            &&& 0 <= i < d.spec_width() * (16 * ts) * (d.spec_height() * (16 * ts))
            &&& landscape_pixel(settings, d, lands, ltex, textures, water, i) == match texture_of(
                ltex,
                textures,
                stored as u32,
            ) {
                Some(t) => water_tint(
                    settings,
                    d,
                    water,
                    (key.0 - d.min_x) * (16 * ts) + gx * ts + x,
                    (d.max_y - key.1) * (16 * ts) + (15 - gy) * ts + y,
                    textures[t].1.spec_pixel(x, y),
                ),
                None => rgba(0, 0, 0, 0),
            }
        }),
{
    let ts = settings.texture_size as int;
    let cs = ts * 16;
    let key = lands[j].0;
    let w = d.spec_width();
    let h = d.spec_height();
    let cx = key.0 - d.min_x;
    let cy = d.max_y - key.1;
    let ox = gx * ts + x;
    let oy = (15 - gy) * ts + y;
    let tx = cx * cs + ox;
    let ty = cy * cs + oy;
    let width = w * cs;
    let i = tile_pixel_index(d, ts, key, gx, gy, x, y);
    assert(0 <= cx < w && 0 <= cy < h);
    assert(0 <= ox < cs && 0 <= oy < cs) by (nonlinear_arith)
        requires
            ox == gx * ts + x,
            oy == (15 - gy) * ts + y,
            cs == ts * 16,
            0 <= gx < 16,
            0 <= gy < 16,
            0 <= x < ts,
            0 <= y < ts,
    ;
    assert(0 <= tx < width && 0 <= ty < h * cs) by (nonlinear_arith)
        requires
            tx == cx * cs + ox,
            ty == cy * cs + oy,
            width == w * cs,
            0 <= cx < w,
            0 <= cy < h,
            0 <= ox < cs,
            0 <= oy < cs,
    ;
    assert(i == ty * width + tx);
    assert(0 <= i < width * (h * cs)) by (nonlinear_arith)
        requires
            i == ty * width + tx,
            0 <= tx < width,
            0 <= ty < h * cs,
    ;
    assert(16 * ts == cs);
    lemma_fundamental_div_mod_converse(i, width, ty, tx);
    lemma_fundamental_div_mod_converse(tx, cs, cx, ox);
    lemma_fundamental_div_mod_converse(ty, cs, cy, oy);
    lemma_fundamental_div_mod_converse(ox, ts, gx, x);
    lemma_fundamental_div_mod_converse(oy, ts, 15 - gy, y);
    let c = cy * w + cx;
    lemma_fundamental_div_mod_converse(c, w, cy, cx);
    let cell = slot_key(d, (ty / cs) * w + tx / cs);
    assert(cell == (key.0 as int, key.1 as int));
    assert(same_cell(lands[j].0, cell));
    let jj = choose|jj: int| 0 <= jj < lands.len() && same_cell(#[trigger] lands[jj].0, cell);
    assert(lands[jj].0 == key);
    assert(jj == j);
    lemma_tile_storage(lands[j].1.texture_indices@, gx, gy);
}

fn apply_water(
    settings: &LandscapeSettings,
    d: &Dimensions,
    water: &Vec<bool>,
    tx: usize,
    ty: usize,
    color: Rgba,
) -> (c: Rgba)
    requires
        landscape_fits(*d, settings.texture_size as int),
        settings.texture_size > 0,
        tx < d.spec_width() * (settings.texture_size * 16),
        ty < d.spec_height() * (settings.texture_size * 16),
    ensures
        c == water_tint(*settings, *d, water@, tx as int, ty as int, color),
{
    if !settings.show_water {
        return color;
    }
    let cs = settings.cell_size();
    let w = d.width();
    let h = d.height();
    proof {
        assert(tx * 65 < cs * (w * 65)) by (nonlinear_arith)
            requires
                tx < w * cs,
        ;
        assert(ty * 65 < cs * (h * 65)) by (nonlinear_arith)
            requires
                ty < h * cs,
        ;
        assert(tx * 65 <= w * cs * 65) by (nonlinear_arith)
            requires
                tx < w * cs,
        ;
        assert(ty * 65 <= h * cs * 65) by (nonlinear_arith)
            requires
                ty < h * cs,
        ;
        lemma_multiply_divide_lt(tx * 65, cs as int, w * 65);
        lemma_multiply_divide_lt(ty * 65, cs as int, h * 65);
        lemma_div_pos_is_pos(tx * 65, cs as int);
        lemma_div_pos_is_pos(ty * 65, cs as int);
    }
    let sx = tx * VERTEX_CNT / cs;
    let sy = ty * VERTEX_CNT / cs;
    proof {
        assert(sy * (w * 65) + sx < (w * 65) * (h * 65)) by (nonlinear_arith)
            requires
                0 <= sx < w * 65,
                0 <= sy < h * 65,
        ;
        assert(w * 65 * (h * 65) == (w * 65) * (h * 65));
    }
    match height_from_screen_space(water, d, sx, sy) {
        Some(below) => if below {
            if settings.remove_water {
                Rgba { r: 0, g: 0, b: 0, a: 0 }
            } else {
                overlay_colors_half(color, Rgba::blue())
            }
        } else {
            color
        },
        None => color,
    }
}

/// Slot `c` of the bounds holds a cell inside the bounds.
proof fn lemma_slot_key_shown(d: Dimensions, c: int)
    requires
        d.spec_width() > 0,
        0 <= c < d.spec_width() * d.spec_height(),
    ensures
        d.min_x <= slot_key(d, c).0 <= d.max_x,
        d.min_y <= slot_key(d, c).1 <= d.max_y,
{
    let w = d.spec_width();
    lemma_mod_bound(c, w);
    lemma_div_pos_is_pos(c, w);
    lemma_multiply_divide_lt(c, w, d.spec_height());
}

/// Composes the textured landscape image of the shown cells (see
/// `landscape_pixel`); `water` marks, per vertex raster position, where the
/// land lies below sea level.
pub fn compute_landscape_image(
    settings: &LandscapeSettings,
    dimensions: &Dimensions,
    landscape_records: &Vec<(CellKey, Landscape)>,
    ltex_records: &Vec<(u32, String)>,
    texture_map: &Vec<(String, Texture)>,
    water: &Vec<bool>,
) -> (pixels: Vec<Rgba>)
    requires
        landscape_fits(*dimensions, settings.texture_size as int),
        distinct_keys(landscape_records@),
        distinct_indices(ltex_records@),
        distinct_names(texture_map@),
        forall|j: int|
            0 <= j < landscape_records@.len() ==> (#[trigger] landscape_records@[j]).1.texture_indices@.len()
                == 256,
        shown_textures_fit(
            *dimensions,
            landscape_records@,
            ltex_records@,
            texture_map@,
            settings.texture_size as int,
        ),
    ensures
        pixels@.len() == dimensions.spec_width() * (settings.texture_size * 16) * (
        dimensions.spec_height() * (settings.texture_size * 16)),
        forall|i: int|
            0 <= i < pixels@.len() ==> pixels@[i] == landscape_pixel(
                *settings,
                *dimensions,
                landscape_records@,
                ltex_records@,
                texture_map@,
                water@,
                i,
            ),
{
    let d = dimensions;
    let ghost lands = landscape_records@;
    let mut keys: Vec<CellKey> = Vec::new();
    let mut j: usize = 0;
    while j < landscape_records.len()
        invariant
            j <= landscape_records.len(),
            keys@.len() == j,
            forall|k: int| 0 <= k < j ==> keys@[k] == #[trigger] landscape_records@[k].0,
        decreases landscape_records.len() - j,
    {
        keys.push(landscape_records[j].0);
        j = j + 1;
    }
    let cell_table = cell_slot_table(d, &keys);
    let tiles = tile_texture_table(landscape_records, ltex_records, texture_map);
    let ts = settings.texture_size;
    let cs = settings.cell_size();
    let w = d.width();
    let h = d.height();
    let width = w * cs;
    let rows = h * cs;
    let total = width * rows;
    let mut pixels: Vec<Rgba> = Vec::new();
    let mut i: usize = 0;
    while i < total
        invariant
            landscape_fits(*d, ts as int),
            ts == settings.texture_size,
            cs == ts * 16,
            w == d.spec_width(),
            h == d.spec_height(),
            w * h <= usize::MAX,
            width == w * cs,
            rows == h * cs,
            total == width * rows,
            slot_table_ok(*d, keys@, cell_table@),
            keys@.len() == lands.len(),
            forall|k: int| 0 <= k < keys@.len() ==> keys@[k] == #[trigger] lands[k].0,
            lands == landscape_records@,
            distinct_keys(lands),
            tiles@.len() == lands.len(),
            forall|k: int|
                0 <= k < tiles@.len() && (#[trigger] lands[k]).1.uses_textures ==> {
                    &&& tiles@[k]@.len() == 256
                    &&& forall|t: int|
                        0 <= t < 256 ==> same_entry(
                            #[trigger] tiles@[k]@[t],
                            texture_of(
                                ltex_records@,
                                texture_map@,
                                tile_key(lands[k].1.texture_indices@, t % 16, t / 16),
                            ),
                        )
                },
            shown_textures_fit(*d, lands, ltex_records@, texture_map@, ts as int),
            i <= total,
            pixels@.len() == i,
            forall|k: int|
                0 <= k < i ==> pixels@[k] == landscape_pixel(
                    *settings,
                    *d,
                    lands,
                    ltex_records@,
                    texture_map@,
                    water@,
                    k,
                ),
        decreases total - i,
    {
        proof {
            lemma_pixel_cell(i as int, width as int, rows as int, w as int, h as int, cs as int);
        }
        let tx = i % width;
        let ty = i / width;
        let c = (ty / cs) * w + tx / cs;
        let ox = tx % cs;
        let oy = ty % cs;
        proof {
            assert(ts > 0) by (nonlinear_arith)
                requires
                    cs == ts * 16,
                    cs > 0,
            ;
            lemma_mod_bound(tx as int, cs as int);
            lemma_mod_bound(ty as int, cs as int);
            lemma_multiply_divide_lt(ox as int, ts as int, 16);
            lemma_multiply_divide_lt(oy as int, ts as int, 16);
            lemma_div_pos_is_pos(ox as int, ts as int);
            lemma_div_pos_is_pos(oy as int, ts as int);
            lemma_mod_bound(ox as int, ts as int);
            lemma_mod_bound(oy as int, ts as int);
            lemma_table_entry(*d, lands, keys@, cell_table@, c as int);
        }
        let gx = ox / ts;
        let gy = 15 - oy / ts;
        let x = ox % ts;
        let y = oy % ts;
        let color = match cell_table[c] {
            Some(k) => {
                if landscape_records[k].1.uses_textures {
                    let t = gy * 16 + gx;
                    proof {
                        lemma_fundamental_div_mod_converse(t as int, 16, gy as int, gx as int);
                    }
                    match tiles[k][t] {
                        Some(tex) => {
                            proof {
                                lemma_slot_key_shown(*d, c as int);
                                assert(d.has_cell(lands[k as int].0));
                                assert(tile_key(lands[k as int].1.texture_indices@, gx as int, gy as int)
                                    == tile_key(lands[k as int].1.texture_indices@, (t as int) % 16, (t as int) / 16));
                                assert(shown_texture(*d, lands, ltex_records@, texture_map@, tex as int));
                            }
                            let col = texture_map[tex].1.get_pixel(x, y);
                            apply_water(settings, d, water, tx, ty, col)
                        },
                        None => Rgba { r: 0, g: 0, b: 0, a: 0 },
                    }
                } else {
                    Rgba { r: 0, g: 0, b: 0, a: 0 }
                }
            },
            None => Rgba { r: 0, g: 0, b: 0, a: 0 },
        };
        pixels.push(color);
        i = i + 1;
    }
    pixels
}

/// What filling the texture map requires.
#[derive(Debug, Clone, Copy, PartialEq, Eq)]
pub struct TexturePlan {
    /// The texture map is to be cleared and filled again.
    pub reload: bool,
    /// The texture size to use (and to store in the settings).
    pub texture_size: usize,
    /// The landscape image at the requested texture size would not fit in a
    /// texture, so the size was lowered.
    pub too_large: bool,
}

/// Decides whether the texture map must be filled again for the shown cells,
/// and at which texture size: it is kept when the largest texture size that
/// fits exceeds the loaded one and the loaded one is the requested one;
/// otherwise it is refilled, at the requested size if the landscape image
/// fits in a texture of side `max_texture_side`, else at the largest size
/// that fits, but at most 16.
pub fn texture_map_plan(
    dimensions: &Dimensions,
    max_texture_side: usize,
    texture_map_resolution: usize,
    texture_size: usize,
) -> (plan: TexturePlan)
    requires
        dimensions.fits(),
        dimensions.spec_width() > 0 || dimensions.spec_height() > 0,
        GRID_SIZE * dimensions.spec_width() <= usize::MAX,
        GRID_SIZE * dimensions.spec_height() <= usize::MAX,
        texture_size * 16 <= usize::MAX,
        dimensions.spec_width() * (texture_size * 16) <= usize::MAX,
        dimensions.spec_height() * (texture_size * 16) <= usize::MAX,
    ensures
        ({
            let max_res = dimensions.spec_max_texture_resolution(max_texture_side as int);
            let cs = texture_size * 16;
            let too_large = dimensions.spec_width() * cs > max_texture_side
                || dimensions.spec_height() * cs > max_texture_side;
            if max_res > texture_map_resolution && texture_map_resolution == texture_size {
                plan == TexturePlan { reload: false, texture_size, too_large: false }
            } else {
                &&& plan.reload
                &&& plan.too_large == too_large
                &&& plan.texture_size == if too_large {
                    if max_res <= 16 {
                        max_res
                    } else {
                        16
                    }
                } else {
                    texture_size as int
                }
            }
        }),
{
    let max_res = dimensions.get_max_texture_resolution(max_texture_side);
    if max_res > texture_map_resolution && texture_map_resolution == texture_size {
        return TexturePlan { reload: false, texture_size, too_large: false };
    }
    let cell_size = texture_size * GRID_SIZE;
    let width = dimensions.pixel_width(cell_size);
    let height = dimensions.pixel_height(cell_size);
    if width > max_texture_side || height > max_texture_side {
        let size = if max_res <= 16 {
            max_res
        } else {
            16
        };
        TexturePlan { reload: true, texture_size: size, too_large: true }
    } else {
        TexturePlan { reload: true, texture_size, too_large: false }
    }
}

/// The name of the landscape texture with key `key`.
pub open spec fn ltex_name(ltex: Seq<(u32, String)>, key: u32) -> Option<Seq<char>> {
    match find_key(ltex, key) {
        Some(e) => Some(ltex[e].1@),
        None => None,
    }
}

/// The texture names that the tiles of a cell use, tile column by tile
/// column (`gx` outer, `gy` inner); tiles whose texture key is unknown are
/// skipped.
pub open spec fn cell_texture_names(
    lands: Seq<(CellKey, Landscape)>,
    ltex: Seq<(u32, String)>,
    k: CellKey,
) -> Seq<Seq<char>> {
    match entry_at(lands, (k.0 as int, k.1 as int)) {
        Some(j) => if lands[j].1.uses_textures {
            Seq::new(256, |t: int| t).filter_map(
                |t: int| ltex_name(ltex, tile_key(lands[j].1.texture_indices@, t / 16, t % 16)),
            )
        } else {
            Seq::empty()
        },
        None => Seq::empty(),
    }
}

/// The texture names used by the first `n` cells of `cells`, in order.
pub open spec fn names_through(
    cells: Seq<CellKey>,
    lands: Seq<(CellKey, Landscape)>,
    ltex: Seq<(u32, String)>,
    n: int,
) -> Seq<Seq<char>>
    decreases n,
{
    if n <= 0 {
        Seq::empty()
    } else {
        names_through(cells, lands, ltex, n - 1) + cell_texture_names(lands, ltex, cells[n - 1])
    }
}

/// The names a cell uses are among the names of any prefix of the cells
/// that holds it.
proof fn lemma_names_through_has(
    cells: Seq<CellKey>,
    lands: Seq<(CellKey, Landscape)>,
    ltex: Seq<(u32, String)>,
    n: int,
    m: int,
    x: Seq<char>,
)
    requires
        0 <= m < n,
        cell_texture_names(lands, ltex, cells[m]).contains(x),
    ensures
        names_through(cells, lands, ltex, n).contains(x),
    decreases n,
{
    let prefix = names_through(cells, lands, ltex, n - 1);
    let last = cell_texture_names(lands, ltex, cells[n - 1]);
    assert(names_through(cells, lands, ltex, n) == prefix + last);
    if m == n - 1 {
        let k = choose|k: int| 0 <= k < last.len() && last[k] == x;
        assert((prefix + last)[prefix.len() + k] == x);
    } else {
        lemma_names_through_has(cells, lands, ltex, n - 1, m, x);
        let k = choose|k: int| 0 <= k < prefix.len() && prefix[k] == x;
        assert((prefix + last)[k] == x);
    }
}

/// The name of the texture record of any key stored in a cell whose
/// landscape uses textures is among the names the cell uses.
proof fn lemma_cell_names_has(
    lands: Seq<(CellKey, Landscape)>,
    ltex: Seq<(u32, String)>,
    j: int,
    p: int,
    e: int,
)
    requires
        distinct_keys(lands),
        distinct_indices(ltex),
        0 <= j < lands.len(),
        lands[j].1.uses_textures,
        lands[j].1.texture_indices@.len() == 256,
        0 <= p < 256,
        0 <= e < ltex.len(),
        ltex[e].0 == lands[j].1.texture_indices@[p] as u32,
    ensures
        cell_texture_names(lands, ltex, lands[j].0).contains(ltex[e].1@),
{
    let key = lands[j].0;
    let pt = (key.0 as int, key.1 as int);
    assert(same_cell(lands[j].0, pt));
    let jj = choose|jj: int| 0 <= jj < lands.len() && same_cell(#[trigger] lands[jj].0, pt);
    assert(lands[jj].0 == key);
    assert(jj == j);
    let indices = lands[j].1.texture_indices@;
    // the tile stored at position p
    lemma_fundamental_div_mod_converse(p, 16, p / 16, p % 16);
    let (gx, gy) = spec_tile_index(p % 16, p / 16);
    lemma_tile_index_involution(p % 16, p / 16);
    assert(tile_key(indices, gx, gy) == indices[p] as u32);
    let t = gx * 16 + gy;
    lemma_fundamental_div_mod_converse(t, 16, gx, gy);
    let g = |t: int| ltex_name(ltex, tile_key(indices, t / 16, t % 16));
    let e2 = choose|e2: int| 0 <= e2 < ltex.len() && #[trigger] ltex[e2].0 == indices[p] as u32;
    assert(e2 == e);
    assert(g(t) == Some(ltex[e].1@));
    let tiles = Seq::new(256, |t: int| t);
    assert(tiles[t] == t);
    lemma_filter_map_has(tiles, g, t, ltex[e].1@);
}

/// The distinct elements of `s`, in the order they first occur.
pub open spec fn first_occurrences(s: Seq<Seq<char>>) -> Seq<Seq<char>>
    decreases s.len(),
{
    if s.len() == 0 {
        Seq::empty()
    } else {
        let r = first_occurrences(s.drop_last());
        if r.contains(s.last()) {
            r
        } else {
            r.push(s.last())
        }
    }
}

/// The contents of the strings.
pub open spec fn string_views(names: Seq<String>) -> Seq<Seq<char>> {
    names.map_values(|n: String| n@)
}

/// Law: the textures to load hold each name once, and every name that a
/// tile of a shown cell uses.
pub proof fn lemma_first_occurrences(s: Seq<Seq<char>>)
    ensures
        forall|a: int, b: int|
            0 <= a < b < first_occurrences(s).len() ==> first_occurrences(s)[a] != first_occurrences(
                s,
            )[b],
        forall|i: int| 0 <= i < s.len() ==> first_occurrences(s).contains(#[trigger] s[i]),
        forall|x: Seq<char>| first_occurrences(s).contains(x) ==> s.contains(x),
    decreases s.len(),
{
    if s.len() > 0 {
        let rest = s.drop_last();
        lemma_first_occurrences(rest);
        let r = first_occurrences(rest);
        assert forall|i: int| 0 <= i < s.len() implies first_occurrences(s).contains(#[trigger] s[i]) by {
            if i < s.len() - 1 {
                assert(rest[i] == s[i]);
                assert(r.contains(s[i]));
                if !r.contains(s.last()) {
                    let k = choose|k: int| 0 <= k < r.len() && r[k] == s[i];
                    assert(r.push(s.last())[k] == s[i]);
                }
            } else {
                if !r.contains(s.last()) {
                    assert(r.push(s.last())[r.len() as int] == s.last());
                }
            }
        }
        assert forall|x: Seq<char>| first_occurrences(s).contains(x) implies s.contains(x) by {
            if r.contains(x) {
                assert(rest.contains(x));
                let k = choose|k: int| 0 <= k < rest.len() && rest[k] == x;
                assert(s[k] == x);
            } else {
                assert(x == s.last());
                assert(s[s.len() - 1] == x);
            }
        }
    }
}

pub(crate) fn contains_string(names: &Vec<String>, name: &String) -> (r: bool)
    ensures
        r == string_views(names@).contains(name@),
{
    let mut j: usize = 0;
    while j < names.len()
        invariant
            j <= names.len(),
            forall|k: int| 0 <= k < j ==> (#[trigger] names@[k])@ != name@,
        decreases names.len() - j,
    {
        if names[j] == *name {
            assert(string_views(names@)[j as int] == names@[j as int]@);
            return true;
        }
        j = j + 1;
    }
    assert forall|k: int| 0 <= k < names@.len() implies #[trigger] string_views(names@)[k] != name@ by {
        assert(string_views(names@)[k] == names@[k]@);
        assert(names@[k]@ != name@);
    }
    false
}

/// The distinct texture names that the tiles of the shown cells use, in the
/// order they are first met (cells row by row from `min_y`, each row from
/// `min_x`): the textures to load into the texture map.
pub fn textures_to_load(
    dimensions: &Dimensions,
    landscape_records: &Vec<(CellKey, Landscape)>,
    ltex_records: &Vec<(u32, String)>,
) -> (names: Vec<String>)
    requires
        dimensions.fits(),
        dimensions.spec_width() * dimensions.spec_height() <= usize::MAX,
        distinct_keys(landscape_records@),
        distinct_indices(ltex_records@),
        forall|j: int|
            0 <= j < landscape_records@.len() ==> (#[trigger] landscape_records@[j]).1.texture_indices@.len()
                == 256,
    ensures
        string_views(names@) == first_occurrences(
            names_through(
                grid_seq(*dimensions),
                landscape_records@,
                ltex_records@,
                grid_seq(*dimensions).len() as int,
            ),
        ),
        forall|j: int, p: int, e: int|
            #![trigger landscape_records@[j].1.texture_indices@[p], ltex_records@[e]]
            0 <= j < landscape_records@.len() && dimensions.has_cell(landscape_records@[j].0)
                && landscape_records@[j].1.uses_textures && 0 <= p < 256 && 0 <= e < ltex_records@.len()
                && ltex_records@[e].0 == landscape_records@[j].1.texture_indices@[p] as u32
                ==> string_views(names@).contains(ltex_records@[e].1@),
{
    let grid = get_grid_cells(dimensions);
    let ghost lands = landscape_records@;
    let ghost ltex = ltex_records@;
    let mut names: Vec<String> = Vec::new();
    let ghost mut occ: Seq<Seq<char>> = Seq::empty();
    let mut i: usize = 0;
    while i < grid.len()
        invariant
            lands == landscape_records@,
            ltex == ltex_records@,
            distinct_keys(lands),
            distinct_indices(ltex),
            forall|j: int| 0 <= j < lands.len() ==> (#[trigger] lands[j]).1.texture_indices@.len() == 256,
            i <= grid@.len(),
            occ == names_through(grid@, lands, ltex, i as int),
            string_views(names@) == first_occurrences(occ),
        decreases grid@.len() - i,
    {
        let key = grid[i];
        let ghost before = occ;
        if let Some(j) = find_cell(landscape_records, key) {
            let land = &landscape_records[j].1;
            if land.uses_textures {
                let ghost f = |t: int| ltex_name(ltex, tile_key(land.texture_indices@, t / 16, t % 16));
                let ghost tiles = Seq::new(256, |t: int| t);
                let mut t: usize = 0;
                while t < 256
                    invariant
                        ltex == ltex_records@,
                        distinct_indices(ltex),
                        land.texture_indices@.len() == 256,
                        f == (|t: int| ltex_name(ltex, tile_key(land.texture_indices@, t / 16, t % 16))),
                        tiles == Seq::new(256, |t: int| t),
                        t <= 256,
                        occ == before + tiles.take(t as int).filter_map(f),
                        string_views(names@) == first_occurrences(occ),
                    decreases 256 - t,
                {
                    proof {
                        tiles.lemma_filter_map_take_succ(f, t as int);
                    }
                    let (dx, dy) = texture_tile_index(t / 16, t % 16);
                    let tex_key = land.texture_indices[dy * 16 + dx] as u32;
                    if let Some(e) = find_index(ltex_records, tex_key) {
                        let name = &ltex_records[e].1;
                        let ghost prev = occ;
                        proof {
                            occ = occ.push(name@);
                            assert(occ.drop_last() =~= prev);
                            assert(tiles.take(t + 1).filter_map(f) =~= tiles.take(t as int).filter_map(f).push(name@));
                            assert(occ =~= before + tiles.take(t + 1).filter_map(f));
                        }
                        if !contains_string(&names, name) {
                            names.push(name.clone());
                            assert(string_views(names@) =~= first_occurrences(prev).push(name@));
                        }
                    } else {
                        assert(tiles.take(t + 1).filter_map(f) =~= tiles.take(t as int).filter_map(f));
                    }
                    t = t + 1;
                }
                assert(tiles.take(256) =~= tiles);
            }
        }
        proof {
            assert(occ =~= names_through(grid@, lands, ltex, i + 1));
        }
        i = i + 1;
    }
    proof {
        let d = *dimensions;
        let all = names_through(grid_seq(d), lands, ltex, grid_seq(d).len() as int);
        lemma_first_occurrences(all);
        assert forall|j: int, p: int, e: int|
            #![trigger lands[j].1.texture_indices@[p], ltex[e]]
            0 <= j < lands.len() && d.has_cell(lands[j].0) && lands[j].1.uses_textures && 0 <= p < 256
                && 0 <= e < ltex.len() && ltex[e].0 == lands[j].1.texture_indices@[p] as u32
                implies string_views(names@).contains(ltex[e].1@) by {
            lemma_cell_names_has(lands, ltex, j, p, e);
            let key = lands[j].0;
            lemma_grid_has(d, key);
            let m = (key.1 - d.min_y) * d.spec_width() + (key.0 - d.min_x);
            lemma_names_through_has(grid_seq(d), lands, ltex, grid_seq(d).len() as int, m, ltex[e].1@);
            let k = choose|k: int| 0 <= k < all.len() && all[k] == ltex[e].1@;
            assert(first_occurrences(all).contains(all[k]));
        }
    }
    names
}

} // verus!
