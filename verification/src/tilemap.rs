//! An efficient way of drawing images composed out of tiles from a spritesheet,
//! such as oldschool RPG maps.
//!
//! This module holds the tile logic of a map: the tileset keyed by tile
//! ID, the layers of tile IDs, the orientation flags packed into tile IDs,
//! the culling of tiles hidden below opaque ones, and the list of quads
//! that have to be drawn.  What a tile's source rect is (`R`) and what the
//! image is (`I`) is up to the drawing layer around it; this module only
//! carries them along.

use std::collections::HashMap;
use vstd::prelude::*;

verus! {

broadcast use vstd::std_specs::hash::group_hash_axioms;

/// Newtype struct for a tile ID.
#[derive(Copy, Clone, Debug, Hash, PartialEq, Eq, Structural, PartialOrd, Ord)]
pub struct TileId(pub usize);

/// A struct containing info on how to draw a tile: its source rect in
/// the image, and whether it entirely shadows the one beneath it.
#[derive(Copy, Clone, Debug, PartialEq)]
pub struct Tile<R> {
    /// The source rect of the tile in the image.
    rect: R,
    /// Whether or not the tile entirely shadows the one
    /// beneath it.
    opaque: bool,
}

impl<R> Tile<R> {
    pub closed spec fn spec_rect(&self) -> R {
        self.rect
    }

    pub closed spec fn is_opaque(&self) -> bool {
        self.opaque
    }

    pub fn new(rect: R, opaque: bool) -> (r: Self)
        ensures
            r.spec_rect() == rect,
            r.is_opaque() == opaque,
    {
        Self { rect, opaque }
    }

    /// The source rect of the tile in the image.
    pub fn rect(&self) -> (r: &R)
        ensures
            *r == self.spec_rect(),
    {
        &self.rect
    }

    /// Whether the tile entirely shadows the one beneath it.
    pub fn opaque(&self) -> (r: bool)
        ensures
            r == self.is_opaque(),
    {
        self.opaque
    }
}

// ---------------------------------------------------------------------
// Tile IDs with orientation flags
// ---------------------------------------------------------------------

/// Bit 31 of a tile ID: the tile is flipped horizontally.
pub open spec fn flipped_h(id: usize) -> bool {
    (id as int / 0x8000_0000) % 2 == 1
}

/// Bit 30 of a tile ID: the tile is flipped vertically.
pub open spec fn flipped_v(id: usize) -> bool {
    (id as int / 0x4000_0000) % 2 == 1
}

/// Bit 29 of a tile ID: the tile is flipped diagonally.
pub open spec fn flipped_d(id: usize) -> bool {
    (id as int / 0x2000_0000) % 2 == 1
}

/// A tile ID without its three orientation flags (bits 29 to 31).
pub open spec fn base_id(id: usize) -> int {
    id as int % 0x2000_0000 + (id as int / 0x1_0000_0000) * 0x1_0000_0000
}

/// Splits a tile ID into the ID without orientation flags, and the
/// horizontal, vertical and diagonal flip flags.
pub fn decode_tile_id(id: usize) -> (r: (usize, bool, bool, bool))
    ensures
        r.0 == base_id(id),
        r.1 == flipped_h(id),
        r.2 == flipped_v(id),
        r.3 == flipped_d(id),
{
    let w: u64 = id as u64;
    let hflip = w & (1u64 << 31) != 0;
    let vflip = w & (1u64 << 30) != 0;
    let dflip = w & (1u64 << 29) != 0;
    let b: u64 = w & !(7u64 << 29);
    assert(hflip == ((w / 0x8000_0000) % 2 == 1)) by (bit_vector)
        requires
            hflip == (w & (1u64 << 31) != 0),
    ;
    assert(vflip == ((w / 0x4000_0000) % 2 == 1)) by (bit_vector)
        requires
            vflip == (w & (1u64 << 30) != 0),
    ;
    assert(dflip == ((w / 0x2000_0000) % 2 == 1)) by (bit_vector)
        requires
            dflip == (w & (1u64 << 29) != 0),
    ;
    assert(b == w % 0x2000_0000 + (w / 0x1_0000_0000) * 0x1_0000_0000 && b <= w) by (bit_vector)
        requires
            b == w & !(7u64 << 29),
    ;
    let base = b as usize;
    (base, hflip, vflip, dflip)
}

/// The global tile ID of a tile read from a map file that gives the flip
/// flags apart from the ID: the flags set at bits 31 (horizontal), 30
/// (vertical) and 29 (diagonal).  For an ID below 2^29, decoding gives
/// back the ID and the flags.
pub fn gid_with_flags(gid: u32, flip_h: bool, flip_v: bool, flip_d: bool) -> (r: u32)
    ensures
        r == gid | (if flip_h { 0x8000_0000u32 } else { 0u32 }) | (if flip_v { 0x4000_0000u32 } else { 0u32 })
            | (if flip_d { 0x2000_0000u32 } else { 0u32 }),
        gid < 0x2000_0000 ==> {
            &&& base_id(r as usize) == gid
            &&& flipped_h(r as usize) == flip_h
            &&& flipped_v(r as usize) == flip_v
            &&& flipped_d(r as usize) == flip_d
        },
{
    let h: u32 = if flip_h { 0x8000_0000 } else { 0 };
    let v: u32 = if flip_v { 0x4000_0000 } else { 0 };
    let d: u32 = if flip_d { 0x2000_0000 } else { 0 };
    let r: u32 = gid | h | v | d;
    if gid < 0x2000_0000 {
        assert(r % 0x2000_0000 == gid) by (bit_vector)
            requires
                r == gid | h | v | d,
                gid < 0x2000_0000,
                h == 0 || h == 0x8000_0000,
                v == 0 || v == 0x4000_0000,
                d == 0 || d == 0x2000_0000,
        ;
        assert(((r / 0x8000_0000) % 2 == 1) == (h != 0) && ((r / 0x4000_0000) % 2 == 1) == (v != 0)
            && ((r / 0x2000_0000) % 2 == 1) == (d != 0)) by (bit_vector)
            requires
                r == gid | h | v | d,
                gid < 0x2000_0000,
                h == 0 || h == 0x8000_0000,
                v == 0 || v == 0x4000_0000,
                d == 0 || d == 0x2000_0000,
        ;
    }
    r
}

/// The order in which the corners of a tile's source rect are given to
/// the four corners of the drawn quad (top-left, top-right,
/// bottom-right, bottom-left): quad corner `k` takes the texture corner
/// `r[k]`.  A diagonal flip swaps the top-right and bottom-left texture
/// corners, then a horizontal flip swaps left and right, then a vertical
/// flip swaps top and bottom.
pub open spec fn corner_order(flip_h: bool, flip_v: bool, flip_d: bool) -> Seq<u8> {
    let p0 = seq![0u8, 1u8, 2u8, 3u8];
    let p1 = if flip_d {
        seq![p0[0], p0[3], p0[2], p0[1]]
    } else {
        p0
    };
    let p2 = if flip_h {
        seq![p1[1], p1[0], p1[3], p1[2]]
    } else {
        p1
    };
    if flip_v {
        seq![p2[3], p2[2], p2[1], p2[0]]
    } else {
        p2
    }
}

/// Which texture corner each corner of a drawn quad takes, given the
/// orientation flags of its tile.
pub fn quad_corners(flip_h: bool, flip_v: bool, flip_d: bool) -> (r: [u8; 4])
    ensures
        r@ == corner_order(flip_h, flip_v, flip_d),
{
    let mut v: [u8; 4] = [0, 1, 2, 3];
    if flip_d {
        let (c1, c3) = (v[1], v[3]);
        v[1] = c3;
        v[3] = c1;
    }
    if flip_h {
        let (c0, c1, c2, c3) = (v[0], v[1], v[2], v[3]);
        v[0] = c1;
        v[1] = c0;
        v[2] = c3;
        v[3] = c2;
    }
    if flip_v {
        let (c0, c1, c2, c3) = (v[0], v[1], v[2], v[3]);
        v[0] = c3;
        v[1] = c2;
        v[2] = c1;
        v[3] = c0;
    }
    assert(v@ =~= corner_order(flip_h, flip_v, flip_d));
    v
}

// ---------------------------------------------------------------------
// Tilesets
// ---------------------------------------------------------------------

/// The tile an ID without its flags stands for, with the cell of the
/// image grid it comes from.
#[derive(Clone, Copy, Debug, PartialEq, Eq)]
pub struct GridTile {
    pub id: TileId,
    /// Column in the image, counted in tiles from the left.
    pub column: u32,
    /// Row in the image, counted in tiles from the top.
    pub row: u32,
}

/// The tiles a tileset image holds: as many whole tiles as fit across and
/// down, numbered from 1 left to right, then top to bottom.  (Any
/// fractions just get truncated off.)
pub open spec fn grid_tile_at(image_width: u32, tile_width: u32, i: int) -> (int, int, int) {
    let per_row = image_width / tile_width;
    (i + 1, i % per_row as int, i / per_row as int)
}

pub open spec fn grid_tile_count(image_width: u32, image_height: u32, tile_width: u32, tile_height: u32) -> int {
    (image_width / tile_width) as int * (image_height / tile_height) as int
}

/// Lists the tiles of a tileset image of the given size, made of tiles of
/// the given size.
pub fn grid_tiles(image_width: u32, image_height: u32, tile_width: u32, tile_height: u32) -> (r: Vec<
    GridTile,
>)
    requires
        tile_width > 0,
        tile_height > 0,
        grid_tile_count(image_width, image_height, tile_width, tile_height) <= u32::MAX,
    ensures
        r@.len() == grid_tile_count(image_width, image_height, tile_width, tile_height),
        forall|i: int|
            0 <= i < r@.len() ==> {
                let g = grid_tile_at(image_width, tile_width, i);
                &&& #[trigger] r@[i].id.0 == g.0
                &&& r@[i].column == g.1
                &&& r@[i].row == g.2
            },
{
    // Calculate number of tiles.
    let tiles_per_row = image_width / tile_width;
    let rows = image_height / tile_height;
    let tile_count = tiles_per_row * rows;
    let mut out: Vec<GridTile> = Vec::new();
    let mut i: u32 = 0;
    while i < tile_count
        invariant
            tiles_per_row == image_width / tile_width,
            rows == image_height / tile_height,
            tile_count == grid_tile_count(image_width, image_height, tile_width, tile_height),
            i <= tile_count,
            out@.len() == i,
            forall|j: int|
                0 <= j < out@.len() ==> {
                    let g = grid_tile_at(image_width, tile_width, j);
                    &&& #[trigger] out@[j].id.0 == g.0
                    &&& out@[j].column == g.1
                    &&& out@[j].row == g.2
                },
        decreases tile_count - i,
    {
        // tiled tile ID's seem to start at 1.
        assert(tiles_per_row > 0) by (nonlinear_arith)
            requires
                i < tile_count,
                tile_count == tiles_per_row as int * rows as int,
        ;
        let id = TileId(i as usize + 1);
        let x = i % tiles_per_row;
        let y = i / tiles_per_row;
        out.push(GridTile { id, column: x, row: y });
        i = i + 1;
    }
    out
}

/// A collection of `Tile` definitions and the image they refer to.
#[derive(Clone, Debug)]
pub struct Tileset<R, I> {
    first_gid: usize,
    tiles: HashMap<usize, Tile<R>>,
    image: I,
}

impl<R, I> Tileset<R, I> {
    /// The tiles, by tile ID without flags.
    pub closed spec fn tile_map(&self) -> Map<usize, Tile<R>> {
        self.tiles@
    }

    pub closed spec fn spec_first_gid(&self) -> usize {
        self.first_gid
    }

    pub closed spec fn spec_image(&self) -> I {
        self.image
    }

    /// A tileset with no tiles yet.
    pub fn new(first_gid: usize, image: I) -> (r: Self)
        ensures
            r.tile_map() == Map::<usize, Tile<R>>::empty(),
            r.spec_first_gid() == first_gid,
            r.spec_image() == image,
    {
        Self { first_gid, tiles: HashMap::new(), image }
    }

    /// Defines (or redefines) the tile of the given ID.
    pub fn insert(&mut self, id: TileId, tile: Tile<R>)
        ensures
            final(self).tile_map() == old(self).tile_map().insert(id.0, tile),
            final(self).spec_first_gid() == old(self).spec_first_gid(),
            final(self).spec_image() == old(self).spec_image(),
    {
        self.tiles.insert(id.0, tile);
    }

    /// The first global tile ID of the tileset.
    pub fn first_gid(&self) -> (r: usize)
        ensures
            r == self.spec_first_gid(),
    {
        self.first_gid
    }

    /// The image the tiles are cut from.
    pub fn image(&self) -> (r: &I)
        ensures
            *r == self.spec_image(),
    {
        &self.image
    }

    /// Turns a global tile ID from a map file into a tile ID.
    pub fn translate_gid(&self, gid: u32) -> (r: TileId)
        ensures
            r.0 == gid,
    {
        TileId(gid as usize)
    }

    /// Looks a tile ID up: the tile for the ID without its orientation
    /// flags, if there is one, and the horizontal, vertical and diagonal
    /// flip flags of the ID.
    pub fn get(&self, id: TileId) -> (r: (Option<&Tile<R>>, bool, bool, bool))
        ensures
            r.0 == (if self.tile_map().contains_key(base_id(id.0) as usize) {
                Some(&self.tile_map()[base_id(id.0) as usize])
            } else {
                None::<&Tile<R>>
            }),
            r.1 == flipped_h(id.0),
            r.2 == flipped_v(id.0),
            r.3 == flipped_d(id.0),
    {
        let (base, hflip, vflip, dflip) = decode_tile_id(id.0);
        (self.tiles.get(&base), hflip, vflip, dflip)
    }
}

// ---------------------------------------------------------------------
// Layers and maps
// ---------------------------------------------------------------------

/// A single layer in the map.
/// Each item is a tile ID, or None
/// if there is nothing to be drawn for that location,
/// which makes life a lot simpler when drawing layered maps.
///
/// Tiles are stored in row-major order.
#[derive(Clone, Debug, PartialEq)]
pub struct Layer {
    pub tiles: Vec<Option<TileId>>,
}

/// The tile of a row-major layer at a coordinate.
pub open spec fn tile_at(tiles: Seq<Option<TileId>>, x: int, y: int, width: int) -> Option<TileId> {
    tiles[y * width + x]
}

impl Layer {
    /// Returns the tile ID at the given coordinate.
    pub fn get_tile(&self, x: usize, y: usize, width: usize) -> (r: Option<TileId>)
        requires
            y * width + x < self.tiles@.len(),
        ensures
            r == tile_at(self.tiles@, x as int, y as int, width as int),
    {
        let n = self.tiles.len();
        assert(y * width <= y * width + x);
        let offset = (y * width) + x;
        self.tiles[offset]
    }
}

/// Walks down the stack of layers at a coordinate, from layer `i`,
/// looking for the first one with a tile there that is marked opaque;
/// `Some` of its index, or `Some(0)` (the bottom layer) if no tile there
/// is opaque, or `None` if a tile met on the way is missing from the
/// tileset.  Empty tiles (`None`, or ID 0) are skipped.
pub open spec fn opaque_walk<R>(
    layers: Seq<Seq<Option<TileId>>>,
    tiles: Map<usize, Tile<R>>,
    x: int,
    y: int,
    width: int,
    i: int,
) -> Option<int>
    decreases i + 1,
{
    if i < 0 {
        Some(0)
    } else {
        match tile_at(layers[i], x, y, width) {
            Some(id) => if id.0 == 0 {
                opaque_walk(layers, tiles, x, y, width, i - 1)
            } else if !tiles.contains_key(base_id(id.0) as usize) {
                None
            } else if tiles[base_id(id.0) as usize].is_opaque() {
                Some(i)
            } else {
                opaque_walk(layers, tiles, x, y, width, i - 1)
            },
            None => opaque_walk(layers, tiles, x, y, width, i - 1),
        }
    }
}

/// One tile to draw: where, from which layer, with what tile ID (flags
/// included).
#[derive(Clone, Copy, Debug, PartialEq, Eq)]
pub struct Quad {
    pub x: usize,
    pub y: usize,
    pub layer: usize,
    pub id: TileId,
}

/// Why a map cannot be built.
#[derive(Debug, Clone, Copy, PartialEq, Eq, Structural)]
pub enum MapError {
    /// A layer does not hold the tiles of the whole map.
    LayerSize,
    /// The map has cells but no layer.
    NoLayers,
    /// A tile that would be drawn, or looked at to decide what to draw,
    /// is not in the tileset.
    InvalidTile,
}

/// A collection of layers, all the same size
/// and all using the same `Tileset`.
///
/// This is intended to be a graphical artifact, not
/// a gameplay one.  If you need collision detection or such,
/// have another structure alongside this one.
#[derive(Clone, Debug)]
pub struct TileMap<R, I> {
    layers: Vec<Layer>,
    /// Width, in tiles
    width: usize,
    /// Height, in tiles
    height: usize,
    /// A map from arbitrary ID's to `Tile`'s.
    tileset: Tileset<R, I>,
}

/// The layers of a map are big enough for its size, it has a layer if it
/// has a cell, and the walk down every cell finds only known tiles.
pub open spec fn map_wf<R>(
    layers: Seq<Seq<Option<TileId>>>,
    tiles: Map<usize, Tile<R>>,
    width: int,
    height: int,
    exact: bool,
) -> bool {
    &&& width * height <= usize::MAX
    &&& forall|l: int|
        0 <= l < layers.len() ==> if exact {
            #[trigger] layers[l].len() == width * height
        } else {
            layers[l].len() >= width * height
        }
    &&& width * height > 0 ==> layers.len() > 0
    &&& forall|x: int, y: int|
        0 <= x < width && 0 <= y < height ==> #[trigger] opaque_walk(
            layers,
            tiles,
            x,
            y,
            width,
            layers.len() - 1,
        ) is Some
}

/// The quads of one cell, from layer `l` up to the top: every non-empty
/// tile there.
pub open spec fn cell_quads(layers: Seq<Seq<Option<TileId>>>, x: int, y: int, width: int, l: int) -> Seq<
    Quad,
>
    decreases layers.len() - l,
{
    if l >= layers.len() || l < 0 {
        Seq::empty()
    } else {
        let here = match tile_at(layers[l], x, y, width) {
            Some(id) => if id.0 != 0 {
                seq![Quad { x: x as usize, y: y as usize, layer: l as usize, id }]
            } else {
                Seq::empty()
            },
            None => Seq::empty(),
        };
        here + cell_quads(layers, x, y, width, l + 1)
    }
}

/// The quads of column `x`, from row `y` down: for each cell, the tiles
/// from the first opaque layer up.
pub open spec fn column_quads<R>(
    layers: Seq<Seq<Option<TileId>>>,
    tiles: Map<usize, Tile<R>>,
    width: int,
    height: int,
    x: int,
    y: int,
) -> Seq<Quad>
    decreases height - y,
{
    if y >= height || y < 0 {
        Seq::empty()
    } else {
        let start = opaque_walk(layers, tiles, x, y, width, layers.len() - 1).unwrap();
        cell_quads(layers, x, y, width, start) + column_quads(layers, tiles, width, height, x, y + 1)
    }
}

/// The quads of the map from column `x` on, column by column.
pub open spec fn map_quads<R>(
    layers: Seq<Seq<Option<TileId>>>,
    tiles: Map<usize, Tile<R>>,
    width: int,
    height: int,
    x: int,
) -> Seq<Quad>
    decreases width - x,
{
    if x >= width || x < 0 {
        Seq::empty()
    } else {
        column_quads(layers, tiles, width, height, x, 0) + map_quads(layers, tiles, width, height, x + 1)
    }
}


/// Why a map of the given layers, tiles and size cannot be built, if it
/// cannot: its size overflows, or a layer does not cover it (exactly,
/// or at least), or it has a cell and no layer, or drawing it would look
/// at a tile missing from the tileset.
pub open spec fn map_problem<R>(
    layers: Seq<Seq<Option<TileId>>>,
    tiles: Map<usize, Tile<R>>,
    width: int,
    height: int,
    exact: bool,
) -> Option<MapError> {
    if width * height > usize::MAX || exists|l: int|
        0 <= l < layers.len() && !(if exact {
            #[trigger] layers[l].len() == width * height
        } else {
            layers[l].len() >= width * height
        }) {
        Some(MapError::LayerSize)
    } else if width * height > 0 && layers.len() == 0 {
        Some(MapError::NoLayers)
    } else if exists|x: int, y: int|
        0 <= x < width && 0 <= y < height && #[trigger] opaque_walk(
            layers,
            tiles,
            x,
            y,
            width,
            layers.len() - 1,
        ) is None {
        Some(MapError::InvalidTile)
    } else {
        None
    }
}

/// The tile IDs of a layer read from a map file: every global ID stands
/// for a tile.
pub open spec fn gid_layer(gids: Seq<u32>) -> Seq<Option<TileId>> {
    gids.map_values(|g: u32| Some(TileId(g as usize)))
}

pub open spec fn layer_tiles(layers: Seq<Layer>) -> Seq<Seq<Option<TileId>>> {
    layers.map_values(|l: Layer| l.tiles@)
}

/// A walk from layer `i` ends at a layer between 0 and `i`.
pub proof fn lemma_walk_bounds<R>(
    layers: Seq<Seq<Option<TileId>>>,
    tiles: Map<usize, Tile<R>>,
    x: int,
    y: int,
    width: int,
    i: int,
)
    ensures
        opaque_walk(layers, tiles, x, y, width, i) matches Some(k) ==> 0 <= k && (i >= 0 ==> k <= i),
    decreases i + 1,
{
    if i >= 0 {
        lemma_walk_bounds(layers, tiles, x, y, width, i - 1);
    }
}

impl<R, I> TileMap<R, I> {
    pub closed spec fn spec_layers(&self) -> Seq<Seq<Option<TileId>>> {
        layer_tiles(self.layers@)
    }

    pub closed spec fn spec_width(&self) -> usize {
        self.width
    }

    pub closed spec fn spec_height(&self) -> usize {
        self.height
    }

    pub closed spec fn spec_tileset(&self) -> Tileset<R, I> {
        self.tileset
    }

    /// The map's invariant: its layers cover it, and every tile that
    /// drawing it looks at is in the tileset.
    pub closed spec fn wf(&self) -> bool {
        map_wf(
            self.spec_layers(),
            self.tileset.tile_map(),
            self.width as int,
            self.height as int,
            false,
        )
    }


    /// Builds a map of the given layers, checking it as `map_problem`
    /// says.
    fn checked(layers: Vec<Layer>, width: usize, height: usize, tileset: Tileset<R, I>, exact: bool) -> (r:
        Result<Self, MapError>)
        ensures
            match r {
                Ok(m) => {
                    &&& map_problem(layer_tiles(layers@), tileset.tile_map(), width as int, height as int, exact) is None
                    &&& m.wf()
                    &&& m.spec_layers() == layer_tiles(layers@)
                    &&& m.spec_width() == width
                    &&& m.spec_height() == height
                    &&& m.spec_tileset() == tileset
                },
                Err(e) => map_problem(
                    layer_tiles(layers@),
                    tileset.tile_map(),
                    width as int,
                    height as int,
                    exact,
                ) == Some(e),
            },
    {
        let ghost ls = layer_tiles(layers@);
        let ghost tiles = tileset.tile_map();
        let area = match width.checked_mul(height) {
            Some(a) => a,
            None => {
                return Err(MapError::LayerSize);
            },
        };
        let mut l: usize = 0;
        while l < layers.len()
            invariant
                area == width * height,
                ls == layer_tiles(layers@),
                0 <= l <= layers@.len(),
                forall|k: int|
                    0 <= k < l ==> if exact {
                        #[trigger] ls[k].len() == width * height
                    } else {
                        ls[k].len() >= width * height
                    },
            decreases layers@.len() - l,
        {
            let len = layers[l].tiles.len();
            assert(ls[l as int] == layers@[l as int].tiles@);
            if (exact && len != area) || (!exact && len < area) {
                assert(!(if exact {
                    ls[l as int].len() == width * height
                } else {
                    ls[l as int].len() >= width * height
                }));
                return Err(MapError::LayerSize);
            }
            l = l + 1;
        }
        if area > 0 && layers.len() == 0 {
            return Err(MapError::NoLayers);
        }
        let m = TileMap { layers, width, height, tileset };
        assert(m.spec_layers() == ls);
        assert forall|k: int|
            0 <= k < m.layers@.len() implies #[trigger] m.layers@[k].tiles@.len()
                >= m.width * m.height by {
            assert(ls[k] == m.layers@[k].tiles@);
        }
        let mut x: usize = 0;
        while x < width
            invariant
                m.spec_layers() == ls,
                m.tileset.tile_map() == tiles,
                ls == layer_tiles(layers@),
                tiles == tileset.tile_map(),
                forall|k: int|
                    0 <= k < ls.len() ==> if exact {
                        #[trigger] ls[k].len() == width * height
                    } else {
                        ls[k].len() >= width * height
                    },
                m.width == width,
                m.height == height,
                area == width * height,
                area > 0 ==> m.layers@.len() > 0,
                forall|k: int|
                    0 <= k < m.layers@.len() ==> #[trigger] m.layers@[k].tiles@.len() >= m.width
                        * m.height,
                0 <= x <= width,
                forall|x1: int, y1: int|
                    0 <= x1 < x && 0 <= y1 < height ==> #[trigger] opaque_walk(
                        ls,
                        tiles,
                        x1,
                        y1,
                        width as int,
                        ls.len() - 1,
                    ) is Some,
            decreases width - x,
        {
            let mut y: usize = 0;
            while y < height
                invariant
                    m.spec_layers() == ls,
                    m.tileset.tile_map() == tiles,
                    ls == layer_tiles(layers@),
                    tiles == tileset.tile_map(),
                    forall|k: int|
                        0 <= k < ls.len() ==> if exact {
                            #[trigger] ls[k].len() == width * height
                        } else {
                            ls[k].len() >= width * height
                        },
                    m.width == width,
                    m.height == height,
                    area == width * height,
                    area > 0 ==> m.layers@.len() > 0,
                    forall|k: int|
                        0 <= k < m.layers@.len() ==> #[trigger] m.layers@[k].tiles@.len()
                            >= m.width * m.height,
                    0 <= x < width,
                    0 <= y <= height,
                    forall|x1: int, y1: int|
                        (0 <= x1 < x && 0 <= y1 < height) || (x1 == x && 0 <= y1 < y)
                            ==> #[trigger] opaque_walk(
                            ls,
                            tiles,
                            x1,
                            y1,
                            width as int,
                            ls.len() - 1,
                        ) is Some,
                decreases height - y,
            {
                assert(area > 0) by (nonlinear_arith)
                    requires
                        x < width,
                        y < height,
                        area == width * height,
                ;
                let n = m.layers.len();
                if m.walk_down(x, y, n - 1).is_none() {
                    assert(opaque_walk(ls, tiles, x as int, y as int, width as int, ls.len() - 1)
                        is None);
                    assert(!(width * height > usize::MAX));
                    assert(ls.len() > 0);
                    assert(!(exists|l: int|
                        0 <= l < ls.len() && !(if exact {
                            #[trigger] ls[l].len() == width * height
                        } else {
                            ls[l].len() >= width * height
                        })));
                    assert(map_problem(ls, tiles, width as int, height as int, exact) == Some(MapError::InvalidTile));
                    return Err(MapError::InvalidTile);
                }
                y = y + 1;
            }
            x = x + 1;
        }
        Ok(m)
    }

    /// Low-level constructor for creating a map.  You give it its size in
    /// tiles, a set of layers (each one holding exactly the tiles of the
    /// whole map, row by row: a layer of another size is the caller's
    /// error) and a tileset you have already created.  Fails, as
    /// `map_problem` says, if the map has cells but no layer, or if
    /// drawing the map would look at a tile missing from the tileset.
    pub fn new(width: usize, height: usize, layers: Vec<Vec<Option<TileId>>>, tileset: Tileset<R, I>) -> (r:
        Result<Self, MapError>)
        requires
            forall|i: int| 0 <= i < layers@.len() ==> #[trigger] layers@[i]@.len() == width * height,
        ensures
            match r {
                Ok(m) => {
                    &&& map_problem(layers@.map_values(|l: Vec<Option<TileId>>| l@), tileset.tile_map(), width as int, height as int, true) is None
                    &&& m.wf()
                    &&& m.spec_layers() == layers@.map_values(|l: Vec<Option<TileId>>| l@)
                    &&& m.spec_width() == width
                    &&& m.spec_height() == height
                    &&& m.spec_tileset() == tileset
                },
                Err(e) => map_problem(
                    layers@.map_values(|l: Vec<Option<TileId>>| l@),
                    tileset.tile_map(),
                    width as int,
                    height as int,
                    true,
                ) == Some(e),
            },
    {
        let ghost given = layers@.map_values(|l: Vec<Option<TileId>>| l@);
        let ghost orig = layers@;
        let mut out: Vec<Layer> = Vec::new();
        for l in it: layers.into_iter()
            invariant
                it.seq() == orig,
                out@.len() == it.index(),
                forall|j: int| 0 <= j < out@.len() ==> #[trigger] out@[j].tiles@ == orig[j]@,
        {
            out.push(Layer { tiles: l });
        }
        assert(layer_tiles(out@) =~= given);
        Self::checked(out, width, height, tileset, true)
    }

    /// Builds a map from layers of global tile IDs as read from a map
    /// file, every ID standing for a tile; each layer holds at least the
    /// tiles of the whole map, row by row.  Fails as `map_problem` says.
    pub fn from_gid_layers(width: usize, height: usize, gid_layers: Vec<Vec<u32>>, tileset: Tileset<R, I>) -> (r:
        Result<Self, MapError>)
        ensures
            match r {
                Ok(m) => {
                    &&& map_problem(gid_layers@.map_values(|l: Vec<u32>| gid_layer(l@)), tileset.tile_map(), width as int, height as int, false) is None
                    &&& m.wf()
                    &&& m.spec_layers() == gid_layers@.map_values(|l: Vec<u32>| gid_layer(l@))
                    &&& m.spec_width() == width
                    &&& m.spec_height() == height
                    &&& m.spec_tileset() == tileset
                },
                Err(e) => map_problem(
                    gid_layers@.map_values(|l: Vec<u32>| gid_layer(l@)),
                    tileset.tile_map(),
                    width as int,
                    height as int,
                    false,
                ) == Some(e),
            },
    {
        let ghost given = gid_layers@.map_values(|l: Vec<u32>| gid_layer(l@));
        let ghost orig = gid_layers@;
        let mut out: Vec<Layer> = Vec::new();
        for gids in it: gid_layers.into_iter()
            invariant
                it.seq() == orig,
                out@.len() == it.index(),
                forall|j: int| 0 <= j < out@.len() ==> #[trigger] out@[j].tiles@ == gid_layer(orig[j]@),
        {
            let mut tiles: Vec<Option<TileId>> = Vec::new();
            let mut k: usize = 0;
            while k < gids.len()
                invariant
                    0 <= k <= gids@.len(),
                    tiles@.len() == k,
                    forall|j: int| 0 <= j < tiles@.len() ==> #[trigger] tiles@[j] == Some(TileId(gids@[j] as usize)),
                decreases gids@.len() - k,
            {
                tiles.push(Some(tileset.translate_gid(gids[k])));
                k = k + 1;
            }
            assert(tiles@ =~= gid_layer(gids@));
            out.push(Layer { tiles });
        }
        assert(layer_tiles(out@) =~= given);
        Self::checked(out, width, height, tileset, false)
    }

    /// The layers, bottom first.
    pub fn layers(&self) -> (r: &Vec<Layer>)
        ensures
            layer_tiles(r@) == self.spec_layers(),
    {
        &self.layers
    }

    /// Width, in tiles
    pub fn width(&self) -> (r: usize)
        ensures
            r == self.spec_width(),
    {
        self.width
    }

    /// Height, in tiles
    pub fn height(&self) -> (r: usize)
        ensures
            r == self.spec_height(),
    {
        self.height
    }

    /// The tileset the map is drawn with.
    pub fn tileset(&self) -> (r: &Tileset<R, I>)
        ensures
            *r == self.spec_tileset(),
    {
        &self.tileset
    }

    /// The tiles to draw, as quads: column by column, and within a column
    /// row by row, for each cell the non-empty tiles from the first opaque
    /// layer there up to the top layer, bottom first.  Tiles entirely
    /// obscured by an opaque tile above them are culled.
    pub fn quads(&self) -> (r: Vec<Quad>)
        requires
            self.wf(),
        ensures
            r@ == map_quads(
                self.spec_layers(),
                self.spec_tileset().tile_map(),
                self.spec_width() as int,
                self.spec_height() as int,
                0,
            ),
    {
        let ghost ls = self.spec_layers();
        let ghost tiles = self.tileset.tile_map();
        let ghost w = self.width as int;
        let ghost h = self.height as int;
        let ghost total = map_quads(ls, tiles, w, h, 0);
        let mut out: Vec<Quad> = Vec::new();
        let mut x: usize = 0;
        assert(out@ + map_quads(ls, tiles, w, h, 0) =~= total);
        while x < self.width
            invariant
                self.wf(),
                ls == self.spec_layers(),
                tiles == self.tileset.tile_map(),
                w == self.width,
                h == self.height,
                total == map_quads(ls, tiles, w, h, 0),
                0 <= x <= w,
                out@ + map_quads(ls, tiles, w, h, x as int) == total,
            decreases w - x,
        {
            assert(map_quads(ls, tiles, w, h, x as int) == column_quads(ls, tiles, w, h, x as int, 0)
                + map_quads(ls, tiles, w, h, x + 1));
            assert(out@ + column_quads(ls, tiles, w, h, x as int, 0) + map_quads(ls, tiles, w, h, x + 1)
                =~= total);
            let mut y: usize = 0;
            while y < self.height
                invariant
                    self.wf(),
                    ls == self.spec_layers(),
                    tiles == self.tileset.tile_map(),
                    w == self.width,
                    h == self.height,
                    total == map_quads(ls, tiles, w, h, 0),
                    0 <= x < w,
                    0 <= y <= h,
                    out@ + column_quads(ls, tiles, w, h, x as int, y as int) + map_quads(
                        ls,
                        tiles,
                        w,
                        h,
                        x + 1,
                    ) == total,
                decreases h - y,
            {
                let start = self.first_opaque_layer_at(x, y);
                let ghost rest = column_quads(ls, tiles, w, h, x as int, y + 1) + map_quads(
                    ls,
                    tiles,
                    w,
                    h,
                    x + 1,
                );
                assert(column_quads(ls, tiles, w, h, x as int, y as int) == cell_quads(
                    ls,
                    x as int,
                    y as int,
                    w,
                    start as int,
                ) + column_quads(ls, tiles, w, h, x as int, y + 1));
                assert(out@ + cell_quads(ls, x as int, y as int, w, start as int) + rest =~= total);
                let n = self.layers.len();
                let mut l: usize = start;
                while l < n
                    invariant
                        self.wf(),
                        ls == self.spec_layers(),
                        n == ls.len(),
                        w == self.width,
                        h == self.height,
                        0 <= x < w,
                        0 <= y < h,
                        start <= l <= n,
                        out@ + cell_quads(ls, x as int, y as int, w, l as int) + rest == total,
                    decreases n - l,
                {
                    assert(y * self.width + x < self.width * self.height) by (nonlinear_arith)
                        requires
                            x < self.width,
                            y < self.height,
                    ;
                    assert(ls[l as int] == self.layers@[l as int].tiles@);
                    assert(ls[l as int].len() >= w * h);
                    let t = self.layers[l].get_tile(x, y, self.width);
                    let ghost before = out@;
                    match t {
                        Some(id) => {
                            if id.0 != 0 {
                                out.push(Quad { x, y, layer: l, id });
                            }
                        },
                        None => {},
                    }
                    assert(out@ + cell_quads(ls, x as int, y as int, w, l + 1) + rest =~= total);
                    l = l + 1;
                }
                assert(cell_quads(ls, x as int, y as int, w, n as int) == Seq::<Quad>::empty());
                assert(out@ + column_quads(ls, tiles, w, h, x as int, y + 1) + map_quads(
                    ls,
                    tiles,
                    w,
                    h,
                    x + 1,
                ) =~= total);
                y = y + 1;
            }
            assert(out@ + map_quads(ls, tiles, w, h, x + 1) =~= total);
            x = x + 1;
        }
        assert(out@ =~= total);
        out
    }

    /// Walks down the layers at a cell from layer `i` on, as
    /// `opaque_walk` says.
    fn walk_down(&self, x: usize, y: usize, i: usize) -> (r: Option<usize>)
        requires
            i < self.layers@.len(),
            x < self.width,
            y < self.height,
            forall|l: int|
                0 <= l < self.layers@.len() ==> #[trigger] self.layers@[l].tiles@.len()
                    >= self.width * self.height,
        ensures
            r == (match opaque_walk(
                self.spec_layers(),
                self.tileset.tile_map(),
                x as int,
                y as int,
                self.width as int,
                i as int,
            ) {
                Some(k) => Some(k as usize),
                None => None::<usize>,
            }),
            r matches Some(k) ==> k <= i,
    {
        proof {
            lemma_walk_bounds(
                self.spec_layers(),
                self.tileset.tile_map(),
                x as int,
                y as int,
                self.width as int,
                i as int,
            );
        }
        let n = self.layers.len();
        let mut j: usize = i + 1;
        while j > 0
            invariant
                j <= i + 1,
                i < self.layers@.len(),
                x < self.width,
                y < self.height,
                forall|l: int|
                    0 <= l < self.layers@.len() ==> #[trigger] self.layers@[l].tiles@.len()
                        >= self.width * self.height,
                opaque_walk(
                    self.spec_layers(),
                    self.tileset.tile_map(),
                    x as int,
                    y as int,
                    self.width as int,
                    i as int,
                ) == opaque_walk(
                    self.spec_layers(),
                    self.tileset.tile_map(),
                    x as int,
                    y as int,
                    self.width as int,
                    j - 1,
                ),
            decreases j,
        {
            let l = j - 1;
            assert(y * self.width + x < self.width * self.height) by (nonlinear_arith)
                requires
                    x < self.width,
                    y < self.height,
            ;
            assert(self.spec_layers()[l as int] == self.layers@[l as int].tiles@);
            let t = self.layers[l].get_tile(x, y, self.width);
            match t {
                Some(id) => {
                    if id.0 != 0 {
                        let (tile, _h, _v, _d) = self.tileset.get(id);
                        match tile {
                            None => {
                                return None;
                            },
                            Some(tile) => {
                                if tile.opaque {
                                    return Some(l);
                                }
                            },
                        }
                    }
                },
                None => {},
            }
            j = l;
        }
        Some(0)
    }

    /// Walk down the stack of `Layer`'s at a coordinate,
    /// finding the first one with a tile at that location marked opaque.
    /// Returns the layer index of the opaque tile.
    ///
    /// If no layers are opaque, returns 0, meaning the bottom layer.
    pub fn first_opaque_layer_at(&self, x: usize, y: usize) -> (r: usize)
        requires
            self.wf(),
            x < self.spec_width(),
            y < self.spec_height(),
        ensures
            opaque_walk(
                self.spec_layers(),
                self.spec_tileset().tile_map(),
                x as int,
                y as int,
                self.spec_width() as int,
                self.spec_layers().len() - 1,
            ) == Some(r as int),
            r < self.spec_layers().len(),
    {
        assert(self.width * self.height > 0) by (nonlinear_arith)
            requires
                x < self.width,
                y < self.height,
        ;
        let n = self.layers.len();
        assert forall|l: int|
            0 <= l < self.layers@.len() implies #[trigger] self.layers@[l].tiles@.len()
                >= self.width * self.height by {
            assert(self.spec_layers()[l] == self.layers@[l].tiles@);
        }
        assert(opaque_walk(
            self.spec_layers(),
            self.tileset.tile_map(),
            x as int,
            y as int,
            self.width as int,
            self.spec_layers().len() - 1,
        ) is Some);
        proof {
            lemma_walk_bounds(
                self.spec_layers(),
                self.tileset.tile_map(),
                x as int,
                y as int,
                self.width as int,
                n - 1,
            );
        }
        self.walk_down(x, y, n - 1).unwrap()
    }
}

/// The walk down a cell stops at an opaque tile, and skips only empty or
/// transparent ones: when it ends above the bottom layer, the tile there
/// is known and opaque; every layer it passed over holds no known opaque
/// tile at that cell.  So no drawn tile is hidden by an opaque one above it.
pub proof fn law_walk_stops_at_opaque<R>(
    layers: Seq<Seq<Option<TileId>>>,
    tiles: Map<usize, Tile<R>>,
    x: int,
    y: int,
    width: int,
    i: int,
    k: int,
)
    requires
        opaque_walk(layers, tiles, x, y, width, i) == Some(k),
    ensures
        k > 0 ==> (tile_at(layers[k], x, y, width) matches Some(id) && id.0 != 0
            && tiles.contains_key(base_id(id.0) as usize) && tiles[base_id(id.0) as usize].is_opaque()),
        forall|j: int|
            k < j <= i ==> !(#[trigger] tile_at(layers[j], x, y, width) matches Some(id) && id.0 != 0
                && tiles.contains_key(base_id(id.0) as usize) && tiles[base_id(id.0) as usize].is_opaque()),
    decreases i + 1,
{
    if i >= 0 {
        lemma_walk_bounds(layers, tiles, x, y, width, i - 1);
        if k != i {
            law_walk_stops_at_opaque(layers, tiles, x, y, width, i - 1, k);
        }
    }
}

/// Decoding a tile ID loses nothing: an ID below 2^32 is its base ID plus
/// its three flags at bits 31, 30 and 29, and the base ID is below 2^29.
pub proof fn law_tile_id_decomposes(id: usize)
    requires
        id < 0x1_0000_0000,
    ensures
        id == base_id(id) + (if flipped_h(id) { 0x8000_0000int } else { 0 }) + (if flipped_v(id) {
            0x4000_0000int
        } else {
            0
        }) + (if flipped_d(id) { 0x2000_0000int } else { 0 }),
        0 <= base_id(id) < 0x2000_0000,
{
    let i = id as int;
    assert(i / 0x1_0000_0000 == 0);
    assert(i == (i / 0x2000_0000) * 0x2000_0000 + i % 0x2000_0000);
    let t = i / 0x2000_0000;
    assert(0 <= t < 8);
    assert(i / 0x8000_0000 == t / 4);
    assert(i / 0x4000_0000 == t / 2);
}

/// The flags act on the texture corners one after the other: the
/// diagonal flip first (it swaps the top-right and bottom-left corners),
/// then the horizontal flip (it swaps left and right), then the vertical
/// one (it swaps top and bottom).  So the corner order for some flags is
/// that of the diagonal flip alone, read through the order of the
/// horizontal and vertical flips; and the order of the horizontal and
/// vertical flips is that of the horizontal flip alone, read through the
/// order of the vertical flip.  Each flip alone swaps the corners it
/// names and nothing else, and undoes itself.
pub proof fn law_flip_order(flip_h: bool, flip_v: bool, flip_d: bool, k: int)
    requires
        0 <= k < 4,
    ensures
        corner_order(flip_h, flip_v, flip_d)[k] == corner_order(false, false, flip_d)[corner_order(
            flip_h,
            flip_v,
            false,
        )[k] as int],
        corner_order(flip_h, flip_v, false)[k] == corner_order(flip_h, false, false)[corner_order(
            false,
            flip_v,
            false,
        )[k] as int],
        corner_order(false, false, false)[k] == k,
        corner_order(true, false, false)[k] == (if k % 2 == 0 { k + 1 } else { k - 1 }),
        corner_order(false, true, false)[k] == 3 - k,
        corner_order(false, false, true)[k] == (if k % 2 == 0 { k } else { 4 - k }),
        corner_order(true, false, false)[corner_order(true, false, false)[k] as int] == k,
        corner_order(false, true, false)[corner_order(false, true, false)[k] as int] == k,
        corner_order(false, false, true)[corner_order(false, false, true)[k] as int] == k,
{
}

/// Whatever the flags, the corners of a drawn quad take the four corners
/// of the source rect, each exactly once.
pub proof fn law_corners_are_a_permutation(flip_h: bool, flip_v: bool, flip_d: bool)
    ensures
        corner_order(flip_h, flip_v, flip_d).len() == 4,
        forall|c: u8| c < 4 ==> #[trigger] corner_order(flip_h, flip_v, flip_d).contains(c),
{
    let p = corner_order(flip_h, flip_v, flip_d);
    assert forall|c: u8| c < 4 implies #[trigger] p.contains(c) by {
        if p[0] == c {
        } else if p[1] == c {
            assert(p[1] == c);
        } else if p[2] == c {
            assert(p[2] == c);
        } else {
            assert(p[3] == c);
        }
    }
}

} // verus!
