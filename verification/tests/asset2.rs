use ggez_goodies::asset2::{AssetCache, AssetLoader};

#[derive(Clone, Debug, Hash, PartialEq)]
struct DummyImage(usize);
#[derive(Clone, Debug, Hash, PartialEq)]
struct DummyImageData;
impl AssetLoader<DummyImage, ()> for DummyImageData {
    fn from_data(_assets: &mut AssetCache, _data: Self) -> Result<DummyImage, ()> {
        Ok(DummyImage(1))
    }
}

/// A loader that always fails.
struct BrokenData;
impl AssetLoader<DummyImage, &'static str> for BrokenData {
    fn from_data(_assets: &mut AssetCache, _data: Self) -> Result<DummyImage, &'static str> {
        Err("broken")
    }
}

#[test]
fn test_loading() {
    let mut cache = AssetCache::new();
    cache.add_loader(DummyImageData);
    let _id = cache.load_asset_from_data("foo", DummyImageData).unwrap();
}

#[test]
fn ids_and_names() {
    let mut cache = AssetCache::new();
    let a = cache.load_asset_from_data("foo", DummyImageData).unwrap();
    let b = cache.load_asset_from_data("bar", DummyImageData).unwrap();
    let c = cache.load_asset_from_data("foo", DummyImageData).unwrap();
    assert_eq!((a, b, c), (1, 2, 3));
    // A name keeps standing for the first asset loaded under it.
    assert_eq!(cache.id_from_name("foo"), Some(1));
    assert_eq!(cache.id_from_name("bar"), Some(2));
    assert_eq!(cache.id_from_name("baz"), None);
    // Positions are counted from 0: position 0 holds the first asset.
    assert_eq!(cache.get::<DummyImage>(0), Some(&DummyImage(1)));
    assert_eq!(cache.get::<u32>(0), None);
    assert_eq!(cache.get::<DummyImage>(3), None);
}

#[test]
fn failed_load_leaves_cache_alone() {
    let mut cache = AssetCache::new();
    assert_eq!(cache.load_asset_from_data("x", BrokenData), Err("broken"));
    assert_eq!(cache.id_from_name("x"), None);
    assert_eq!(cache.finish_load("y", Ok::<u8, ()>(4)), Ok(1));
    assert_eq!(cache.get::<u8>(0), Some(&4));
    assert_eq!(cache.finish_load::<u8, i32>("z", Err(3)), Err(3));
    assert_eq!(cache.id_from_name("z"), None);
}
