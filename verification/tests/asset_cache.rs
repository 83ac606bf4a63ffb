use ggez_goodies::asset::{AssetCache, Loadable, StateLoadable};

/// The loaders in these tests never fail.
#[derive(Debug)]
struct NoError;

impl<'a> Loadable<&'a str, NoError> for String {
    fn load(key: &&str) -> Result<String, NoError> {
        Ok(key.to_string())
    }
}

impl<'a> StateLoadable<&'a str, NoError, i32> for String {
    fn load_state(key: &&str, state: &mut i32) -> Result<String, NoError> {
        *state += 1;
        Ok(key.to_string())
    }
}

#[test]
fn test_assetcache() {
    let mut a = AssetCache::<&str, String>::new();
    {
        assert!(!a.loaded(&"foo"));
        let (handle, s1) = a.get_key(&"foo").unwrap();
        assert!(a.loaded(&"foo"));
        assert_eq!(*s1, "foo");
        let gotten_with_handle = a.get(handle);
        assert_eq!(*s1, *gotten_with_handle);
    }
}

#[test]
fn test_stateful_assetcache() {
    let mut a = AssetCache::<&str, String>::new();
    {
        let s = &mut 10;
        assert!(!a.loaded(&"foo"));
        let (handle, s1) = a.get_key_state(&"foo", s).unwrap();
        assert_eq!(*s1, "foo");
        assert_eq!(*s, 11);
        assert!(a.loaded(&"foo"));

        let gotten_with_handle = a.get(handle);
        assert_eq!(*s1, *gotten_with_handle);
        assert_eq!(*s, 11);
    }
}

#[test]
fn test_mut_assetcache() {
    let mut a = AssetCache::<&str, String>::new();
    assert!(!a.loaded(&"foo"));
    let (h, _) = a.get_key(&"foo").unwrap();

    {
        let mut_value = a.get_mut(h.clone());
        assert!(mut_value.is_some());
        let m = mut_value.unwrap();
        assert_eq!("foo", *m);
        *m += "Foobaz";
        assert_eq!("fooFoobaz", *m);
    }
    // Now get it again and ensure it's mutated.
    {
        let mut_value = a.get_mut(h.clone());
        assert!(mut_value.is_some());
        let m = mut_value.unwrap();
        assert_eq!("fooFoobaz", *m);
    }
}

#[test]
fn loading_a_loaded_key_keeps_its_handle() {
    let mut a = AssetCache::<&str, String>::new();
    let (h1, _) = a.get_key(&"foo").unwrap();
    let (h2, _) = a.get_key(&"bar").unwrap();
    let (h3, v3) = a.get_key(&"foo").unwrap();
    assert_eq!(*v3, "foo");
    assert_eq!(*a.get(h1), "foo");
    assert_eq!(*a.get(h2), "bar");
    assert_eq!(*a.get(h3), "foo");
    let mut count = 0;
    a.preload_state(&["foo", "baz", "bar"], &mut count);
    // Only "baz" had to be loaded.
    assert_eq!(count, 1);
    assert!(a.loaded(&"baz"));
}

#[test]
fn shared_asset_cannot_be_mutated() {
    let mut a = AssetCache::<&str, String>::new();
    let (h, kept) = a.get_key(&"foo").unwrap();
    assert!(a.get_mut(h).is_none());
    drop(kept);
    assert!(a.get_mut(h).is_some());
}

#[test]
fn store_loaded_reports_loader_errors() {
    let mut a = AssetCache::<&str, String>::new();
    let r: Result<_, &str> = a.store_loaded(&"foo", Err("missing"));
    assert!(matches!(r, Err("missing")));
    assert!(!a.loaded(&"foo"));
    let r: Result<_, &str> = a.store_loaded(&"foo", Ok("content".to_string()));
    let (h, v) = r.unwrap();
    assert_eq!(*v, "content");
    assert_eq!(*a.get(h), "content");
    assert!(a.loaded(&"foo"));
}

#[test]
fn it_works() {}

#[test]
fn preload_state_loads_each_new_key_once() {
    let mut c = AssetCache::<&str, String>::new();
    let s = &mut 10;
    c.preload_state::<NoError, i32>(&["foo", "bar", "foo"], s);
    assert_eq!(*s, 12);
    assert!(c.loaded(&"foo") && c.loaded(&"bar") && !c.loaded(&"baz"));
    // Everything listed is loaded already: the state is not touched.
    c.preload_state::<NoError, i32>(&["bar"], s);
    assert_eq!(*s, 12);
}
