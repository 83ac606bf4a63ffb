//! This module implements a simple asset loader and cache.
//!
//! Ideally you want to load all the assets you need at once,
//! hold on to them for a time (the course of a level for instance),
//! and then potentially ditch the ones you don't need.
//! This module offers cache-like functionality to do exactly this.
//!
//! It will return an `Rc` containing the item loaded, so multiple
//! items can safely access (read-only) instances of the same asset.
//! (In the same thread, at least.)
//!
//! What it does NOT do is allow you to free individual assets from
//! the cache.  This is on purpose.  This is more a memory
//! pool like thing where you allocate a bunch of objects, keep them
//! around for however long you need them (while the game is loaded,
//! while a particular scene is loaded, etc), and then free them all.
//!
//! If you want to make a stack of asset managers, where one
//! has access to the assets higher up in the stack...
//! Just build one and clone it.  All the Rc's in it will get
//! cloned along with it.

use std::collections::HashMap;
use std::fmt::Debug;
use std::hash::Hash;
use std::marker::PhantomData;
use std::rc::Rc;
use vstd::prelude::*;

use crate::keys::{clone_key, lawful_key};

verus! {

broadcast use vstd::std_specs::hash::group_hash_axioms;

/// A type that knows how to load itself from a key.
pub trait Loadable<K, E> {
    fn load(_key: &K) -> Result<Self, E> where Self: Sized;
}

/// A type that knows how to load itself from a key with the help of a
/// state object.
pub trait StateLoadable<K, E, S> {
    fn load_state(_key: &K, state: &mut S) -> Result<Self, E> where Self: Sized;
}

/// An opaque asset handle that can be used for O(1) fetches
/// of assets.
#[derive(Debug)]
pub struct Handle<T> {
    idx: usize,
    _phantom: PhantomData<T>,
}

impl<T> Handle<T> {
    /// The position of the asset in its cache.
    pub closed spec fn index(&self) -> usize {
        self.idx
    }
}

impl<T> Copy for Handle<T> {

}

impl<T> Clone for Handle<T> {
    fn clone(&self) -> (r: Self)
        ensures
            r.index() == self.index(),
    {
        Handle { idx: self.idx, _phantom: PhantomData }
    }
}

/// `Rc::clone`: another pointer to the same allocation, hence to the
/// same value.
#[verifier::external_body]
fn share<V>(rc: &Rc<V>) -> (r: Rc<V>)
    ensures
        *r == **rc,
{
    Rc::clone(rc)
}

/// `Rc::get_mut`: a mutable reference to the shared value, when no other
/// pointer to the same allocation exists.  Whether another pointer exists
/// is not visible here, so whether the result is `Some` is left open;
/// when it is, writes through it are writes to the shared value, and when
/// it is not, the value is untouched.
#[verifier::external_body]
fn rc_get_mut<V>(rc: &mut Rc<V>) -> (r: Option<&mut V>)
    ensures
        match r {
            Some(m) => *m == **old(rc) && **final(rc) == *final(m),
            None => **final(rc) == **old(rc),
        },
{
    Rc::get_mut(rc)
}

/// What a cache holds: the value behind each handle, in order of
/// loading, and the handle index each loaded key is bound to.
#[verifier::reject_recursive_types(K)]
pub struct CacheModel<K, V> {
    pub values: Seq<V>,
    pub keys: Map<K, usize>,
    pub next: usize,
}

/// Every key is bound to an existing value, and the next handle is the
/// next position.
pub open spec fn cache_wf<K, V>(m: CacheModel<K, V>) -> bool {
    &&& m.next == m.values.len()
    &&& forall|k: K| #[trigger] m.keys.contains_key(k) ==> m.keys[k] < m.values.len()
}

/// The cache after a newly loaded value for `key` was added.
pub open spec fn cache_add<K, V>(m: CacheModel<K, V>, key: K, v: V) -> CacheModel<K, V> {
    CacheModel { values: m.values.push(v), keys: m.keys.insert(key, m.values.len() as usize), next: (m.next + 1) as usize }
}

/// `after` is `before` with only new keys bound to values appended after
/// the old ones.
pub open spec fn cache_grows<K, V>(before: CacheModel<K, V>, after: CacheModel<K, V>) -> bool {
    &&& before.values.len() <= after.values.len()
    &&& after.values.subrange(0, before.values.len() as int) == before.values
    &&& forall|k: K| #[trigger] before.keys.contains_key(k) ==> after.keys.contains_key(k)
        && after.keys[k] == before.keys[k]
    &&& forall|k: K| #[trigger] after.keys.contains_key(k) && !before.keys.contains_key(k) ==>
        after.keys[k] >= before.values.len()
}

/// Every key bound in `before` is still bound, to the same handle, in
/// `after`, and no handle was taken away.
pub open spec fn cache_keeps_keys<K, V>(before: CacheModel<K, V>, after: CacheModel<K, V>) -> bool {
    &&& before.values.len() <= after.values.len()
    &&& forall|k: K| #[trigger] before.keys.contains_key(k) ==> after.keys.contains_key(k)
        && after.keys[k] == before.keys[k]
}

/// How a cache and a result follow from what a load of `key` gave back,
/// as `AssetCache::store_loaded` does it: a loaded value is added under a
/// new handle and handed back; an error is handed back with the cache
/// untouched.
pub open spec fn load_outcome<K, V, E>(
    before: CacheModel<K, V>,
    after: CacheModel<K, V>,
    key: K,
    loaded: Result<V, E>,
    r: Result<(Handle<V>, Rc<V>), E>,
) -> bool {
    match loaded {
        Ok(v) => r matches Ok((h, rc)) && h.index() == before.values.len() && *rc == v && after
            == cache_add(before, key, v),
        Err(e) => r matches Err(e2) && e2 == e && after == before,
    }
}

/// One step of a preload: a key already loaded is skipped (`None`); a key
/// not loaded yet is loaded once (`Some` of what the load gave back), and
/// the cache follows what came back.
pub open spec fn preload_step<K, V, E>(
    before: CacheModel<K, V>,
    after: CacheModel<K, V>,
    key: K,
    loaded: Option<Result<V, E>>,
) -> bool {
    match loaded {
        None => before.keys.contains_key(key) && after == before,
        Some(Ok(v)) => !before.keys.contains_key(key) && after == cache_add(before, key, v),
        Some(Err(_)) => !before.keys.contains_key(key) && after == before,
    }
}

/// A cache of assets of type `V`, loaded by keys of type `K`.
#[derive(Debug, Clone)]
pub struct AssetCache<K, V> where K: Hash + Eq + Clone + Debug {
    handles: Vec<Rc<V>>,
    keys: HashMap<K, Handle<V>>,
    next_handle: usize,
}

impl<K, V> View for AssetCache<K, V> where K: Hash + Eq + Clone + Debug {
    type V = CacheModel<K, V>;

    closed spec fn view(&self) -> CacheModel<K, V> {
        CacheModel {
            values: self.handles@.map_values(|r: Rc<V>| *r),
            keys: self.keys@.map_values(|h: Handle<V>| h.idx),
            next: self.next_handle,
        }
    }
}

impl<K, V> AssetCache<K, V> where K: Hash + Eq + Clone + Debug {
    /// Creates a new, empty `AssetCache`.
    pub fn new() -> (r: Self)
        ensures
            r@.values == Seq::<V>::empty(),
            r@.keys == Map::<K, usize>::empty(),
            r@.next == 0,
            cache_wf(r@),
    {
        let r = AssetCache { handles: Vec::new(), keys: HashMap::new(), next_handle: 0 };
        assert(r@.values =~= Seq::empty());
        assert(r@.keys =~= Map::empty());
        r
    }

    fn new_handle(&mut self) -> (h: Handle<V>)
        requires
            old(self).next_handle < usize::MAX,
        ensures
            h.idx == old(self).next_handle,
            final(self).next_handle == old(self).next_handle + 1,
            final(self).handles == old(self).handles,
            final(self).keys == old(self).keys,
    {
        let i = self.next_handle;
        self.next_handle = self.next_handle + 1;
        Handle { idx: i, _phantom: PhantomData }
    }

    // Inserts the given asset into the handles vec at the given
    // location, and inserts the key into the key->handle mapping.
    fn bind_handle(&mut self, key: K, h: Handle<V>, value: Rc<V>)
        requires
            lawful_key::<K>(),
            h.idx == old(self).handles.len(),
            !old(self).keys@.contains_key(key),
        ensures
            final(self).handles@ == old(self).handles@.push(value),
            final(self).keys@ == old(self).keys@.insert(key, h),
            final(self).next_handle == old(self).next_handle,
    {
        self.handles.push(value);
        self.keys.insert(key, h);
    }

    // Adds a new item to the cache, returns an Rc reference to it
    // and an Handle.
    fn add_item(&mut self, key: K, value: V) -> (r: (Handle<V>, Rc<V>))
        requires
            lawful_key::<K>(),
            cache_wf(old(self)@),
            old(self)@.values.len() < usize::MAX,
            !old(self)@.keys.contains_key(key),
        ensures
            r.0.index() == old(self)@.values.len(),
            *r.1 == value,
            final(self)@ == cache_add(old(self)@, key, value),
            cache_wf(final(self)@),
    {
        let handle = self.new_handle();
        let rc = Rc::new(value);
        let ghost old_view = self@;
        self.bind_handle(key, handle, share(&rc));
        proof {
            assert(self@.values =~= old_view.values.push(value));
            assert(self@.keys =~= old_view.keys.insert(key, old_view.values.len() as usize));
        }
        (handle, rc)
    }

    /// Retrieves an asset via its handle.
    /// This is always safe (and fast) because for a handle
    /// to be valid its object *must* exist in the cache.
    pub fn get(&self, handle: Handle<V>) -> (r: Rc<V>)
        requires
            handle.index() < self@.values.len(),
        ensures
            *r == self@.values[handle.index() as int],
    {
        share(&self.handles[handle.idx])
    }

    /// Gives mutable access to an asset via its handle, when the cache
    /// holds the only pointer to it.
    pub fn get_mut<'a>(&'a mut self, handle: Handle<V>) -> (r: Option<&'a mut V>)
        requires
            handle.index() < old(self)@.values.len(),
        ensures
            final(self)@.keys == old(self)@.keys,
            final(self)@.next == old(self)@.next,
            cache_keeps_keys(old(self)@, final(self)@),
            match r {
                Some(m) => *m == old(self)@.values[handle.index() as int] && final(self)@.values
                    == old(self)@.values.update(handle.index() as int, *final(m)),
                None => final(self)@.values == old(self)@.values,
            },
    {
        rc_get_mut(&mut self.handles[handle.idx])
    }

    /// Finishes a load of `key` with what the loader gave back: a value
    /// that was loaded is added to the cache under a new handle; an error
    /// is handed back with the cache untouched.
    pub fn store_loaded<E>(&mut self, key: &K, loaded: Result<V, E>) -> (r: Result<
        (Handle<V>, Rc<V>),
        E,
    >)
        requires
            lawful_key::<K>(),
            cache_wf(old(self)@),
            old(self)@.values.len() < usize::MAX,
            !old(self)@.keys.contains_key(*key),
        ensures
            cache_wf(final(self)@),
            match loaded {
                Ok(v) => r matches Ok((h, rc)) && h.index() == old(self)@.values.len() && *rc == v
                    && final(self)@ == cache_add(old(self)@, *key, v),
                Err(e) => r == Err::<(Handle<V>, Rc<V>), E>(e) && final(self)@ == old(self)@,
            },
    {
        match loaded {
            Ok(v) => Ok(self.add_item(clone_key(key), v)),
            Err(e) => Err(e),
        }
    }

    /// Gets the given asset, loading it if necessary.
    /// Returns an Rc to the value, plus an Handle
    /// which can be used to retrieve it quickly.
    ///
    /// An asset that is already loaded is always found; otherwise the
    /// loader decides, and what it gives back is stored as
    /// `store_loaded` says.
    pub fn get_key<E>(&mut self, key: &K) -> (r: Result<(Handle<V>, Rc<V>), E>) where
        V: Loadable<K, E>,

        requires
            lawful_key::<K>(),
            cache_wf(old(self)@),
            old(self)@.values.len() < usize::MAX,
        ensures
            cache_wf(final(self)@),
            cache_keeps_keys(old(self)@, final(self)@),
            old(self)@.keys.contains_key(*key) ==> {
                &&& final(self)@ == old(self)@
                &&& r matches Ok((h, rc)) && h.index() == old(self)@.keys[*key]
                    && *rc == old(self)@.values[h.index() as int]
            },
            !old(self)@.keys.contains_key(*key) ==> exists|loaded: Result<V, E>|
                #[trigger] call_ensures(V::load, (key,), loaded) && load_outcome(
                    old(self)@,
                    final(self)@,
                    *key,
                    loaded,
                    r,
                ),
    {
        if let Some(handle) = self.keys.get(key) {
            let h = *handle;
            assert(self@.keys.contains_key(*key) && self@.keys[*key] == h.idx);
            return Ok((h, self.get(h)));
        };
        let loaded = V::load(key);
        let ghost l = loaded;
        let r = self.store_loaded(key, loaded);
        assert(load_outcome(old(self)@, self@, *key, l, r));
        r
    }

    /// Gets the given asset, loading it with a state object if necessary.
    ///
    /// An asset that is already loaded is always found, and the state is
    /// then not touched; otherwise the loader decides, and what it gives
    /// back is stored as `store_loaded` says.
    pub fn get_key_state<E, S>(&mut self, key: &K, state: &mut S) -> (r: Result<
        (Handle<V>, Rc<V>),
        E,
    >) where V: StateLoadable<K, E, S>
        requires
            lawful_key::<K>(),
            cache_wf(old(self)@),
            old(self)@.values.len() < usize::MAX,
        ensures
            cache_wf(final(self)@),
            cache_keeps_keys(old(self)@, final(self)@),
            old(self)@.keys.contains_key(*key) ==> {
                &&& final(self)@ == old(self)@
                &&& *final(state) == *old(state)
                &&& r matches Ok((h, rc)) && h.index() == old(self)@.keys[*key]
                    && *rc == old(self)@.values[h.index() as int]
            },
            !old(self)@.keys.contains_key(*key) ==> exists|loaded: Result<V, E>, st: &mut S|
                *st == *old(state) && *final(st) == *final(state) && #[trigger] call_ensures(
                    V::load_state,
                    (key, st),
                    loaded,
                ) && load_outcome(old(self)@, final(self)@, *key, loaded, r),
    {
        if let Some(handle) = self.keys.get(key) {
            let h = *handle;
            assert(self@.keys.contains_key(*key) && self@.keys[*key] == h.idx);
            return Ok((h, self.get(h)));
        };
        let loaded = V::load_state(key, state);
        let ghost l = loaded;
        let r = self.store_loaded(key, loaded);
        assert(load_outcome(old(self)@, self@, *key, l, r));
        r
    }

    /// Returns true if the given asset is loaded.
    pub fn loaded(&self, key: &K) -> (r: bool)
        requires
            lawful_key::<K>(),
        ensures
            r == self@.keys.contains_key(*key),
    {
        self.keys.contains_key(key)
    }

    /// Takes a slice containing a list of keys,
    /// and loads all the keys so that their objects
    /// are immediately accessible.
    ///
    /// The keys are taken in order: a key loaded already (before the call,
    /// or earlier in the list) is skipped; any other key is loaded once,
    /// and a failed load is skipped over.  So every asset loaded before
    /// stays where it was, each listed key ends up loaded or a load of it
    /// failed, and every newly loaded key is a listed one whose load gave
    /// the value it holds.
    pub fn preload<E>(&mut self, keys: &[K]) where V: Loadable<K, E>
        requires
            lawful_key::<K>(),
            cache_wf(old(self)@),
            old(self)@.values.len() + keys@.len() < usize::MAX,
        ensures
            cache_wf(final(self)@),
            cache_keeps_keys(old(self)@, final(self)@),
            cache_grows(old(self)@, final(self)@),
            forall|k: K| #[trigger] keys@.contains(k) ==> final(self)@.keys.contains_key(k) || exists|e: E|
                #[trigger] call_ensures(V::load, (&k,), Err::<V, E>(e)),
            forall|k: K| #[trigger] final(self)@.keys.contains_key(k) && !old(self)@.keys.contains_key(k)
                ==> keys@.contains(k) && exists|v: V|
                #[trigger] call_ensures(V::load, (&k,), Ok::<V, E>(v))
                && final(self)@.values[final(self)@.keys[k] as int] == v,
            exists|ms: Seq<CacheModel<K, V>>, ls: Seq<Option<Result<V, E>>>|
                #![trigger ms.len(), ls.len()]
                {
                    &&& ms.len() == keys@.len() + 1 && ls.len() == keys@.len()
                    &&& ms[0] == old(self)@ && ms.last() == final(self)@
                    &&& forall|q: int| #![trigger ls[q]] 0 <= q < keys@.len() ==> preload_step(ms[q], ms[q + 1], keys@[q], ls[q])
                        && (ls[q] matches Some(l) ==> call_ensures(V::load, (&keys@[q],), l))
                },
    {
        let mut i: usize = 0;
        let ghost mut ms: Seq<CacheModel<K, V>> = seq![self@];
        let ghost mut ls: Seq<Option<Result<V, E>>> = Seq::empty();
        assert(self@.values.subrange(0, self@.values.len() as int) =~= self@.values);
        while i < keys.len()
            invariant
                lawful_key::<K>(),
                0 <= i <= keys@.len(),
                ms.len() == i + 1 && ls.len() == i,
                ms[0] == old(self)@ && ms.last() == self@,
                forall|q: int| #![trigger ls[q]] 0 <= q < i ==> preload_step(ms[q], ms[q + 1], keys@[q], ls[q])
                    && (ls[q] matches Some(l) ==> call_ensures(V::load, (&keys@[q],), l)),
                cache_wf(self@),
                cache_keeps_keys(old(self)@, self@),
                self@.values.len() <= old(self)@.values.len() + i,
                old(self)@.values.len() + keys@.len() < usize::MAX,
                cache_grows(old(self)@, self@),
                forall|k: K| #[trigger] keys@.take(i as int).contains(k) ==> self@.keys.contains_key(k)
                    || exists|e: E| #[trigger] call_ensures(V::load, (&k,), Err::<V, E>(e)),
                forall|k: K| #[trigger] self@.keys.contains_key(k) && !old(self)@.keys.contains_key(k)
                    ==> keys@.take(i as int).contains(k) && exists|v: V|
                    #[trigger] call_ensures(V::load, (&k,), Ok::<V, E>(v)) && self@.values[self@.keys[k] as int]
                    == v,
            decreases keys@.len() - i,
        {
            let ghost before = self@;
            let ghost kk = keys@[i as int];
            let res = self.get_key::<E>(&keys[i]);
            proof {
                crate::keys::lemma_prefix_grows(keys@, i as int);
                let ghost ms0 = ms;
                let ghost ls0 = ls;
                if before.keys.contains_key(kk) {
                    ms = ms.push(self@);
                    ls = ls.push(None);
                } else {
                    let l = choose|l: Result<V, E>|
                        #[trigger] call_ensures(V::load, (&kk,), l) && load_outcome(before, self@, kk, l, res);
                    ms = ms.push(self@);
                    ls = ls.push(Some(l));
                }
                assert forall|q: int| #![trigger ls[q]] 0 <= q < i + 1 implies preload_step(ms[q], ms[q + 1], keys@[q], ls[q])
                    && (ls[q] matches Some(l) ==> call_ensures(V::load, (&keys@[q],), l)) by {
                    if q < i {
                        assert(ls[q] == ls0[q] && ms[q] == ms0[q] && ms[q + 1] == ms0[q + 1]);
                    }
                }
                if !before.keys.contains_key(kk) {
                    let l = ls.last()->Some_0;
                    match l {
                        Ok(v) => {
                            lemma_cache_add_grows(old(self)@, before, kk, v);
                            assert(call_ensures(V::load, (&kk,), Ok::<V, E>(v)));
                            assert forall|k: K| #[trigger] self@.keys.contains_key(k) && !old(self)@.keys.contains_key(k)
                                implies keys@.take(i + 1).contains(k) && exists|v2: V|
                                #[trigger] call_ensures(V::load, (&k,), Ok::<V, E>(v2)) && self@.values[self@.keys[k] as int]
                                == v2 by {
                                if k != kk {
                                    let v2 = choose|v2: V| #[trigger] call_ensures(V::load, (&k,), Ok::<V, E>(v2))
                                        && before.values[before.keys[k] as int] == v2;
                                    assert(self@.values[self@.keys[k] as int] == v2);
                                }
                            }
                        },
                        Err(e) => {
                            assert(call_ensures(V::load, (&kk,), Err::<V, E>(e)));
                        },
                    }
                }
            }
            i = i + 1;
        }
        proof {
            assert(keys@.take(keys@.len() as int) =~= keys@);
            assert(ms.len() == keys@.len() + 1 && ls.len() == keys@.len());
        }
    }

    /// Preloads objects that require a state to load.
    ///
    /// The keys are taken in order, as `preload` does; each load is given
    /// the state as the loads before it left it, and a skipped key leaves
    /// the state alone.  When every listed key is loaded already, the state
    /// is not touched.
    pub fn preload_state<E, S>(&mut self, keys: &[K], state: &mut S) where
        V: StateLoadable<K, E, S>,

        requires
            lawful_key::<K>(),
            cache_wf(old(self)@),
            old(self)@.values.len() + keys@.len() < usize::MAX,
        ensures
            cache_wf(final(self)@),
            cache_keeps_keys(old(self)@, final(self)@),
            cache_grows(old(self)@, final(self)@),
            forall|k: K| #[trigger] keys@.contains(k) ==> final(self)@.keys.contains_key(k) || exists|
                e: E,
                st: &mut S,
            | #[trigger] call_ensures(V::load_state, (&k, st), Err::<V, E>(e)),
            forall|k: K| #[trigger] final(self)@.keys.contains_key(k) && !old(self)@.keys.contains_key(k)
                ==> keys@.contains(k) && exists|v: V, st: &mut S|
                #[trigger] call_ensures(V::load_state, (&k, st), Ok::<V, E>(v))
                && final(self)@.values[final(self)@.keys[k] as int] == v,
            (forall|k: K| #[trigger] keys@.contains(k) ==> old(self)@.keys.contains_key(k))
                ==> *final(state) == *old(state),
            exists|ms: Seq<CacheModel<K, V>>, ls: Seq<Option<Result<V, E>>>, ss: Seq<S>, ts: Seq<&mut S>|
                #![trigger ms.len(), ls.len(), ss.len(), ts.len()]
                {
                    &&& ms.len() == keys@.len() + 1 && ls.len() == keys@.len()
                    &&& ss.len() == keys@.len() + 1 && ts.len() == keys@.len()
                    &&& ms[0] == old(self)@ && ms.last() == final(self)@
                    &&& ss[0] == *old(state) && ss.last() == *final(state)
                    &&& forall|q: int| #![trigger ls[q]] 0 <= q < keys@.len() ==> preload_step(ms[q], ms[q + 1], keys@[q], ls[q])
                        && (ls[q] is None ==> ss[q + 1] == ss[q])
                        && (ls[q] matches Some(l) ==> *ts[q] == ss[q] && *final(ts[q]) == ss[q + 1]
                            && call_ensures(V::load_state, (&keys@[q], ts[q]), l))
                },
    {
        let mut i: usize = 0;
        let ghost mut ms: Seq<CacheModel<K, V>> = seq![self@];
        let ghost mut ls: Seq<Option<Result<V, E>>> = Seq::empty();
        let ghost mut ss: Seq<S> = seq![*state];
        proof {
            let e: Seq<&mut S> = Seq::empty();
            assert(e.len() == ls.len());
        }
        assert(self@.values.subrange(0, self@.values.len() as int) =~= self@.values);
        while i < keys.len()
            invariant
                lawful_key::<K>(),
                0 <= i <= keys@.len(),
                cache_wf(self@),
                cache_keeps_keys(old(self)@, self@),
                self@.values.len() <= old(self)@.values.len() + i,
                old(self)@.values.len() + keys@.len() < usize::MAX,
                cache_grows(old(self)@, self@),
                forall|k: K| #[trigger] keys@.take(i as int).contains(k) ==> self@.keys.contains_key(k)
                    || exists|e: E, st: &mut S| #[trigger] call_ensures(V::load_state, (&k, st), Err::<V, E>(e)),
                forall|k: K| #[trigger] self@.keys.contains_key(k) && !old(self)@.keys.contains_key(k)
                    ==> keys@.take(i as int).contains(k) && exists|v: V, st: &mut S|
                    #[trigger] call_ensures(V::load_state, (&k, st), Ok::<V, E>(v))
                    && self@.values[self@.keys[k] as int] == v,
                (forall|k: K| #[trigger] keys@.contains(k) ==> old(self)@.keys.contains_key(k)) ==> *state
                    == *old(state),
                ms.len() == i + 1 && ls.len() == i && ss.len() == i + 1,
                ms[0] == old(self)@ && ms.last() == self@,
                ss[0] == *old(state) && ss.last() == *state,
                exists|ts: Seq<&mut S>|
                    #![trigger ts.len()]
                    ts.len() == i && forall|q: int| #![trigger ls[q]] 0 <= q < i ==> preload_step(ms[q], ms[q + 1], keys@[q], ls[q])
                        && (ls[q] is None ==> ss[q + 1] == ss[q])
                        && (ls[q] matches Some(l) ==> *ts[q] == ss[q] && *final(ts[q]) == ss[q + 1]
                            && call_ensures(V::load_state, (&keys@[q], ts[q]), l)),
            decreases keys@.len() - i,
        {
            let ghost ts0 = choose|ts: Seq<&mut S>|
                ts.len() == i && forall|q: int| #![trigger ls[q]] 0 <= q < i ==> preload_step(ms[q], ms[q + 1], keys@[q], ls[q])
                        && (ls[q] is None ==> ss[q + 1] == ss[q])
                        && (ls[q] matches Some(l) ==> *ts[q] == ss[q] && *final(ts[q]) == ss[q + 1]
                            && call_ensures(V::load_state, (&keys@[q], ts[q]), l));
            let ghost sb = *state;
            let ghost before = self@;
            let ghost kk = keys@[i as int];
            proof {
                if forall|k: K| #[trigger] keys@.contains(k) ==> old(self)@.keys.contains_key(k) {
                    assert(keys@.contains(kk));
                }
            }
            let res = self.get_key_state::<E, S>(&keys[i], state);
            proof {
                crate::keys::lemma_prefix_grows(keys@, i as int);
                let ms0 = ms;
                let ls0 = ls;
                let ss0 = ss;
                let lo: Option<Result<V, E>> = if before.keys.contains_key(kk) {
                    None
                } else {
                    Some(choose|l: Result<V, E>| load_outcome(before, self@, kk, l, res))
                };
                let st0 = if before.keys.contains_key(kk) {
                    vstd::pervasive::arbitrary::<&mut S>()
                } else {
                    let (l1, st1) = choose|l: Result<V, E>, st0: &mut S|
                        *st0 == sb && *final(st0) == *state && #[trigger] call_ensures(V::load_state, (&kk, st0), l)
                            && load_outcome(before, self@, kk, l, res);
                    assert(l1 == lo->Some_0);
                    st1
                };
                ms = ms.push(self@);
                ls = ls.push(lo);
                ss = ss.push(*state);
                let ts1 = ts0.push(st0);
                assert(ts1.len() == i + 1);
                assert forall|q: int| #![trigger ls[q]] 0 <= q < i + 1 implies preload_step(ms[q], ms[q + 1], keys@[q], ls[q])
                        && (ls[q] is None ==> ss[q + 1] == ss[q])
                        && (ls[q] matches Some(l) ==> *ts1[q] == ss[q] && *final(ts1[q]) == ss[q + 1]
                            && call_ensures(V::load_state, (&keys@[q], ts1[q]), l)) by {
                    if q < i {
                        assert(ls[q] == ls0[q] && ms[q] == ms0[q] && ms[q + 1] == ms0[q + 1]);
                        assert(ss[q] == ss0[q] && ss[q + 1] == ss0[q + 1] && ts1[q] == ts0[q]);
                    }
                }
                if !before.keys.contains_key(kk) {
                    let (l, st0) = choose|l: Result<V, E>, st0: &mut S|
                        #[trigger] call_ensures(V::load_state, (&kk, st0), l)
                            && load_outcome(before, self@, kk, l, res);
                    match l {
                        Ok(v) => {
                            lemma_cache_add_grows(old(self)@, before, kk, v);
                            assert(call_ensures(V::load_state, (&kk, st0), Ok::<V, E>(v)));
                            assert forall|k: K| #[trigger] self@.keys.contains_key(k) && !old(self)@.keys.contains_key(k)
                                implies keys@.take(i + 1).contains(k) && exists|v2: V, st2: &mut S|
                                #[trigger] call_ensures(V::load_state, (&k, st2), Ok::<V, E>(v2))
                                && self@.values[self@.keys[k] as int] == v2 by {
                                if k != kk {
                                    let (v2, st2) = choose|v2: V, st2: &mut S|
                                        #[trigger] call_ensures(V::load_state, (&k, st2), Ok::<V, E>(v2))
                                        && before.values[before.keys[k] as int] == v2;
                                    assert(self@.values[self@.keys[k] as int] == v2);
                                }
                            }
                        },
                        Err(e) => {
                            assert(call_ensures(V::load_state, (&kk, st0), Err::<V, E>(e)));
                        },
                    }
                }
            }
            i = i + 1;
        }
        proof {
            assert(keys@.take(keys@.len() as int) =~= keys@);
            let ts0 = choose|ts: Seq<&mut S>|
                ts.len() == i && forall|q: int| #![trigger ls[q]] 0 <= q < i ==> preload_step(ms[q], ms[q + 1], keys@[q], ls[q])
                        && (ls[q] is None ==> ss[q + 1] == ss[q])
                        && (ls[q] matches Some(l) ==> *ts[q] == ss[q] && *final(ts[q]) == ss[q + 1]
                            && call_ensures(V::load_state, (&keys@[q], ts[q]), l));
            assert(ms.len() == keys@.len() + 1 && ls.len() == keys@.len() && ss.len() == keys@.len() + 1
                && ts0.len() == keys@.len());
        }
    }
}

/// Adding a newly loaded value keeps a cache growing.
proof fn lemma_cache_add_grows<K, V>(a: CacheModel<K, V>, b: CacheModel<K, V>, k: K, v: V)
    requires
        cache_grows(a, b),
        cache_wf(b),
        !b.keys.contains_key(k),
    ensures
        cache_grows(a, cache_add(b, k, v)),
{
    let c = cache_add(b, k, v);
    assert(c.values.subrange(0, a.values.len() as int) =~= a.values) by {
        assert(c.values.subrange(0, b.values.len() as int) =~= b.values);
        assert(b.values.subrange(0, a.values.len() as int) =~= a.values);
    }
}

/// A key that was loaded is bound to a handle that gives back the value
/// loaded for it, and loading a key keeps the cache well formed.
pub proof fn law_handle_gives_back_loaded<K, V>(m: CacheModel<K, V>, key: K, v: V)
    requires
        cache_wf(m),
        m.values.len() < usize::MAX,
        !m.keys.contains_key(key),
    ensures
        cache_add(m, key, v).keys.contains_key(key),
        cache_add(m, key, v).values[cache_add(m, key, v).keys[key] as int] == v,
        cache_wf(cache_add(m, key, v)),
{
}

/// The cache never frees or replaces an asset: loading a new key keeps
/// every handle already given out pointing at the same value, and every
/// key already loaded bound to the same handle.
pub proof fn law_loading_keeps_assets<K, V>(m: CacheModel<K, V>, key: K, v: V, k: K, i: int)
    requires
        cache_wf(m),
        !m.keys.contains_key(key),
        0 <= i < m.values.len(),
        m.keys.contains_key(k),
    ensures
        cache_add(m, key, v).values[i] == m.values[i],
        cache_add(m, key, v).keys[k] == m.keys[k],
        cache_grows(m, cache_add(m, key, v)),
{
    assert(cache_add(m, key, v).values.subrange(0, m.values.len() as int) =~= m.values);
}

/// Keys are never removed: whatever sequence of calls a cache goes
/// through (each of which keeps its keys), every key loaded before is
/// still loaded, bound to the same handle, afterwards.
pub proof fn law_keys_never_removed<K, V>(a: CacheModel<K, V>, b: CacheModel<K, V>, c: CacheModel<K, V>)
    requires
        cache_keeps_keys(a, b),
        cache_keeps_keys(b, c),
    ensures
        cache_keeps_keys(a, c),
{
}

} // verus!
