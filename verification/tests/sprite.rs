use ggez_goodies::sprite::{Atlas, LayerIndex, LayerManager};

#[test]
fn atlas_tile_size() {
    let a = Atlas::new("sheet.png", 4, 3);
    assert_eq!(*a.source(), "sheet.png");
    // 128 pixels split in 4 and in 3, whole pixels only.
    assert_eq!(a.tile_size(), (32, 42));
}

#[test]
fn layer_index_equality_is_by_id() {
    assert!(LayerIndex::new(1, 5) == LayerIndex::new(2, 5));
    assert!(LayerIndex::new(1, 5) != LayerIndex::new(1, 6));
    assert_eq!(LayerIndex::new(-3, 9).key(), (-3, 9));
}

#[test]
fn layer_manager_orders_by_layer_then_insertion() {
    let mut lm: LayerManager<&str> = LayerManager::new();
    lm.add(2, "top");
    lm.add(0, "bottom-first");
    lm.add(0, "bottom-second");
    lm.add(-1, "under");
    let order: Vec<&str> = lm.layers().values().copied().collect();
    assert_eq!(order, vec!["under", "bottom-first", "bottom-second", "top"]);
    let keys: Vec<(i32, usize)> = lm.layers().keys().copied().collect();
    assert_eq!(keys, vec![(-1, 4), (0, 2), (0, 3), (2, 1)]);
}
