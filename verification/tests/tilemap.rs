use ggez_goodies::tilemap::{
    decode_tile_id, gid_with_flags, grid_tiles, quad_corners, GridTile, Layer, MapError, Quad, Tile, TileId,
    TileMap, Tileset,
};

/// A tile's source rectangle, in tiles of the tileset image.
#[derive(Clone, Copy, Debug, PartialEq)]
struct Cell(u32, u32);

fn tileset() -> Tileset<Cell, &'static str> {
    let mut ts = Tileset::new(1, "tiles.png");
    ts.insert(TileId(1), Tile::new(Cell(0, 0), true));
    ts.insert(TileId(2), Tile::new(Cell(1, 0), false));
    ts
}

#[test]
fn tile_id_flags_are_split_off() {
    assert_eq!(decode_tile_id(5), (5, false, false, false));
    assert_eq!(decode_tile_id(0x8000_0005), (5, true, false, false));
    assert_eq!(decode_tile_id(0x4000_0007), (7, false, true, false));
    assert_eq!(decode_tile_id(0x2000_0001), (1, false, false, true));
    assert_eq!(decode_tile_id(0xE000_0002), (2, true, true, true));
}

#[test]
fn corners_follow_the_flips() {
    assert_eq!(quad_corners(false, false, false), [0, 1, 2, 3]);
    assert_eq!(quad_corners(true, false, false), [1, 0, 3, 2]);
    assert_eq!(quad_corners(false, true, false), [3, 2, 1, 0]);
    assert_eq!(quad_corners(false, false, true), [0, 3, 2, 1]);
    assert_eq!(quad_corners(true, true, true), [2, 1, 0, 3]);
}

#[test]
fn grid_tiles_of_an_image() {
    // 40x20 pixels, tiles of 16x16: two across, one down; the rest is cut off.
    let g = grid_tiles(40, 20, 16, 16);
    assert_eq!(
        g,
        vec![
            GridTile { id: TileId(1), column: 0, row: 0 },
            GridTile { id: TileId(2), column: 1, row: 0 },
        ]
    );
    let g = grid_tiles(32, 32, 16, 16);
    assert_eq!(g.len(), 4);
    assert_eq!(g[3], GridTile { id: TileId(4), column: 1, row: 1 });
    assert!(grid_tiles(8, 8, 16, 16).is_empty());
}

#[test]
fn tileset_lookup_ignores_flags() {
    let ts = tileset();
    assert_eq!(ts.first_gid(), 1);
    assert_eq!(*ts.image(), "tiles.png");
    assert_eq!(ts.translate_gid(7), TileId(7));
    let (t, h, v, d) = ts.get(TileId(0x8000_0002));
    assert_eq!(*t.unwrap().rect(), Cell(1, 0));
    assert!(!t.unwrap().opaque());
    assert!(h && !v && !d);
    let (t, _, _, _) = ts.get(TileId(3));
    assert!(t.is_none());
}

#[test]
fn layer_get_tile_is_row_major() {
    let l = Layer { tiles: vec![Some(TileId(1)), None, Some(TileId(2)), Some(TileId(3))] };
    assert_eq!(l.get_tile(0, 0, 2), Some(TileId(1)));
    assert_eq!(l.get_tile(1, 0, 2), None);
    assert_eq!(l.get_tile(0, 1, 2), Some(TileId(2)));
    assert_eq!(l.get_tile(1, 1, 2), Some(TileId(3)));
}

#[test]
fn map_walks_down_to_the_first_opaque_tile() {
    // 2x1 map, three layers: bottom opaque everywhere, middle has an
    // opaque tile at (0, 0), top has a transparent tile at (0, 0).
    let layers = vec![
        vec![Some(TileId(1)), Some(TileId(1))],
        vec![Some(TileId(1)), None],
        vec![Some(TileId(2)), Some(TileId(0))],
    ];
    let m = TileMap::new(2, 1, layers, tileset()).unwrap();
    assert_eq!(m.width(), 2);
    assert_eq!(m.height(), 1);
    assert_eq!(m.layers().len(), 3);
    assert_eq!(m.first_opaque_layer_at(0, 0), 1);
    assert_eq!(m.first_opaque_layer_at(1, 0), 0);
    // Cell (0, 0) is drawn from layer 1 up; cell (1, 0) from layer 0 up,
    // where only the bottom layer has a tile.
    assert_eq!(
        m.quads(),
        vec![
            Quad { x: 0, y: 0, layer: 1, id: TileId(1) },
            Quad { x: 0, y: 0, layer: 2, id: TileId(2) },
            Quad { x: 1, y: 0, layer: 0, id: TileId(1) },
        ]
    );
}

#[test]
fn map_errors() {
    // Cells but no layer.
    let r = TileMap::new(2, 2, Vec::new(), tileset());
    assert_eq!(r.err(), Some(MapError::NoLayers));
    // A tile the tileset does not have.
    let r = TileMap::new(1, 1, vec![vec![Some(TileId(9))]], tileset());
    assert_eq!(r.err(), Some(MapError::InvalidTile));
    // An empty map needs no layer.
    assert!(TileMap::new(0, 0, Vec::new(), tileset()).is_ok());
}

#[test]
fn map_from_gid_layers() {
    // Global IDs as read from a map file; longer layers are fine there.
    let m = TileMap::from_gid_layers(1, 1, vec![vec![2, 1], vec![0x8000_0001]], tileset()).unwrap();
    assert_eq!(m.first_opaque_layer_at(0, 0), 1);
    assert_eq!(m.quads(), vec![Quad { x: 0, y: 0, layer: 1, id: TileId(0x8000_0001) }]);
    let r = TileMap::from_gid_layers(2, 1, vec![vec![1]], tileset());
    assert_eq!(r.err(), Some(MapError::LayerSize));
    let r = TileMap::from_gid_layers(1, 1, vec![vec![5]], tileset());
    assert_eq!(r.err(), Some(MapError::InvalidTile));
}

#[test]
fn gid_with_flags_sets_the_flag_bits() {
    assert_eq!(gid_with_flags(5, false, false, false), 5);
    assert_eq!(gid_with_flags(5, true, false, false), 0x8000_0005);
    assert_eq!(gid_with_flags(7, false, true, true), 0x6000_0007);
    assert_eq!(decode_tile_id(gid_with_flags(9, true, true, false) as usize), (9, true, true, false));
}
