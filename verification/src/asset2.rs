//! An experimental asset loader loosely based off
//! of a ggez-ified version of Amethyst's asset loader:
//!
//! https://docs.rs/amethyst/0.4.3/amethyst/asset_manager/index.html
//!
//! The main difference from Amethyst is it doesn't store things in specs;
//! the main difference from the existing asset loader is its storage of
//! assets with their types erased.

use std::any::{Any, TypeId};
use std::collections::HashMap;
use vstd::hash_map::StringHashMap;
use vstd::prelude::*;

verus! {

pub type AssetId = usize;

/// An asset of any type, with its type erased (a `Box<dyn Any>`).
/// What is inside is not visible to the verifier.
#[verifier::external_body]
pub struct ErasedAsset(Box<dyn Any>);

/// The registered loaders, one per loader type (a map from `TypeId` to
/// `Box<dyn Any>`).  What is inside is not visible to the verifier.
#[verifier::external_body]
pub struct LoaderRegistry(HashMap<TypeId, Box<dyn Any>>);

/// `Box::new` of an asset or a loader, as a `Box<dyn Any>`; nothing is
/// stated of it.
#[verifier::external_body]
fn erase<A: 'static>(asset: A) -> ErasedAsset {
    ErasedAsset(Box::new(asset))
}

/// `<dyn Any>::downcast_ref`: the asset, if its type is `T`.  Whether it
/// is cannot be stated here, so nothing is stated of the result.
#[verifier::external_body]
fn downcast<T: 'static>(asset: &ErasedAsset) -> Option<&T> {
    asset.0.downcast_ref::<T>()
}

/// `HashMap::new`, for the loader registry; nothing about its content is
/// visible.
#[verifier::external_body]
fn empty_registry() -> LoaderRegistry {
    LoaderRegistry(HashMap::new())
}

/// The identity of a type, as std gives it.
#[verifier::external_type_specification]
#[verifier::external_body]
pub struct ExTypeId(TypeId);

/// `TypeId::of`: the identity of type `T`; nothing is stated of it.
#[verifier::external_body]
fn type_key<T: 'static>() -> TypeId {
    TypeId::of::<T>()
}

/// `HashMap::insert` of a type-erased loader under a type's identity,
/// replacing the loader stored under it, if any; nothing about the content
/// is visible.
#[verifier::external_body]
fn register(registry: &mut LoaderRegistry, key: TypeId, loader: ErasedAsset) {
    registry.0.insert(key, loader.0);
}

/// `asset`, read as a `T`, gives `r`: the asset itself if it has type `T`,
/// and nothing otherwise (as `<dyn Any>::downcast_ref` does it).
pub closed spec fn read_as<T: 'static>(asset: ErasedAsset, r: Option<&T>) -> bool {
    call_ensures(downcast::<T>, (&asset,), r)
}

/// `e` is `value` with its type erased (as `Box::new` into a
/// `Box<dyn Any>` does it).
pub closed spec fn erased_from<A: 'static>(value: A, e: ErasedAsset) -> bool {
    call_ensures(erase::<A>, (value,), e)
}

/// A cache of assets of any types, each stored under an ID and
/// reachable by name.
pub struct AssetCache {
    loaders: LoaderRegistry,
    asset_ids: StringHashMap<AssetId>,
    assets: Vec<ErasedAsset>,
}

/// Describes an abstract asset loader type.
pub trait AssetLoader<A, E> {
    fn from_data(assets: &mut AssetCache, data: Self) -> Result<A, E> where Self: Sized;
}

impl AssetCache {
    /// The number of assets stored.
    pub closed spec fn count(&self) -> nat {
        self.assets@.len()
    }

    /// The assets stored, type-erased, in the order they were stored.
    pub closed spec fn stored(&self) -> Seq<ErasedAsset> {
        self.assets@
    }

    /// The ID each name stands for.
    pub closed spec fn names(&self) -> Map<Seq<char>, AssetId> {
        self.asset_ids@
    }

    pub fn new() -> (r: Self)
        ensures
            r.count() == 0,
            r.names() == Map::<Seq<char>, AssetId>::empty(),
    {
        Self { loaders: empty_registry(), asset_ids: StringHashMap::new(), assets: Vec::new() }
    }

    /// Registers a loader; a loader of the same type registered before is
    /// replaced.  The assets are not touched.
    pub fn add_loader<T: 'static>(&mut self, loader: T)
        ensures
            final(self).count() == old(self).count(),
            final(self).names() == old(self).names(),
    {
        register(&mut self.loaders, type_key::<T>(), erase(loader));
    }

    /// Load an asset from data: the loader's `from_data` is called once,
    /// with this cache and the data, and may itself work on the cache;
    /// what it gives back is then stored as `finish_load` says: a loaded
    /// asset under a new ID, which the name stands for unless it stood for
    /// an asset already; an error handed back with the cache as the loader
    /// left it.
    pub fn load_asset_from_data<A: 'static, S, E>(&mut self, name: &str, data: S) -> (r: Result<
        AssetId,
        E,
    >) where S: AssetLoader<A, E>
        ensures
            exists|c0: &mut AssetCache, loaded: Result<A, E>|
                *c0 == *old(self) && #[trigger] call_ensures(S::from_data, (c0, data), loaded)
                    && finish_outcome(*final(c0), *final(self), name@, loaded, r)
                    && names_kept(final(c0).names(), final(self).names()),
            r matches Ok(id) ==> 0 < id == final(self).count() && final(self).names().contains_key(name@),
    {
        let asset = S::from_data(self, data);
        self.finish_load(name, asset)
    }

    /// Finishes a load with what the loader gave back: a loaded asset is
    /// stored, and its ID (the number of assets stored, it included)
    /// given back; an error is given back with the cache untouched.
    pub fn finish_load<A: 'static, E>(&mut self, name: &str, loaded: Result<A, E>) -> (r: Result<
        AssetId,
        E,
    >)
        ensures
            names_kept(old(self).names(), final(self).names()),
            finish_outcome(*old(self), *final(self), name@, loaded, r),
    {
        match loaded {
            Ok(asset) => Ok(self.add_asset(name, asset)),
            Err(e) => Err(e),
        }
    }

    /// The ID a name stands for, if any.
    pub fn id_from_name(&self, name: &str) -> (r: Option<AssetId>)
        ensures
            r == self.names().get(name@),
    {
        match self.asset_ids.get(name) {
            Some(id) => Some(*id),
            None => None,
        }
    }

    /// The asset stored at position `id`, if there is one and it has type
    /// `T`.
    pub fn get<T: 'static>(&self, id: AssetId) -> (r: Option<&T>)
        ensures
            id >= self.count() ==> r is None,
            id < self.count() ==> read_as(self.stored()[id as int], r),
    {
        if id < self.assets.len() {
            downcast(&self.assets[id])
        } else {
            None
        }
    }

    /// Stores an asset; its ID is the number of assets stored, it
    /// included.  A name that already stands for an asset keeps standing
    /// for that one.
    fn add_asset<A: 'static>(&mut self, name: &str, asset: A) -> (r: AssetId)
        ensures
            final(self).count() == old(self).count() + 1,
            final(self).stored() == old(self).stored().push(final(self).stored().last()),
            erased_from(asset, final(self).stored().last()),
            r == final(self).count(),
            final(self).names() == added_name(old(self).names(), name@, r),
    {
        self.assets.push(erase(asset));
        let id = self.assets.len();
        if !self.asset_ids.contains_key(name) {
            self.asset_ids.insert(name.to_owned(), id);
        }
        id
    }
}

/// How a cache and a result follow from what a loader gave back, as
/// `AssetCache::finish_load` does it: a loaded asset is stored, its ID is
/// the number of assets stored (it included) and the name stands for it
/// unless it stood for an asset already; an error is handed back with the
/// cache untouched.
pub open spec fn finish_outcome<A: 'static, E>(
    before: AssetCache,
    after: AssetCache,
    name: Seq<char>,
    loaded: Result<A, E>,
    r: Result<AssetId, E>,
) -> bool {
    match loaded {
        Ok(a) => r matches Ok(id) && id == after.count() && after.count() == before.count() + 1
            && after.names() == added_name(before.names(), name, id) && after.stored() == before.stored().push(
            after.stored().last(),
        ) && erased_from(a, after.stored().last()),
        Err(e) => r matches Err(e2) && e2 == e && after.stored() == before.stored() && after.names()
            == before.names(),
    }
}

/// Loading never moves a stored asset: after a successful load every
/// asset stored before is at the position it was, and the new asset is at
/// position `id - 1`, where `id` is the ID handed back; `get` reads the
/// asset at the position it is given.  A failed load stores nothing.
pub proof fn law_assets_keep_positions<A: 'static, E>(
    before: AssetCache,
    after: AssetCache,
    name: Seq<char>,
    loaded: Result<A, E>,
    r: Result<AssetId, E>,
    i: int,
)
    requires
        finish_outcome(before, after, name, loaded, r),
    ensures
        0 <= i < before.count() ==> after.stored()[i] == before.stored()[i],
        loaded matches Ok(a) ==> r matches Ok(id) && id >= 1 && erased_from(a, after.stored()[id - 1]),
        loaded is Err ==> after.stored() == before.stored(),
{
}

/// The names after an asset was stored under a name: the name stands for
/// it unless it already stood for another asset.
pub open spec fn added_name(names: Map<Seq<char>, AssetId>, name: Seq<char>, id: AssetId) -> Map<
    Seq<char>,
    AssetId,
> {
    if names.contains_key(name) {
        names
    } else {
        names.insert(name, id)
    }
}

/// Every name of `before` stands for the same ID in `after`.
pub open spec fn names_kept(before: Map<Seq<char>, AssetId>, after: Map<Seq<char>, AssetId>) -> bool {
    forall|n: Seq<char>| #[trigger] before.contains_key(n) ==> after.contains_key(n) && after[n] == before[n]
}

/// Over any sequence of steps that each keep the names (as `finish_load`
/// and `add_loader` do), a name keeps standing for the ID it got first.
pub proof fn law_names_keep_first_id(
    a: Map<Seq<char>, AssetId>,
    b: Map<Seq<char>, AssetId>,
    c: Map<Seq<char>, AssetId>,
)
    requires
        names_kept(a, b),
        names_kept(b, c),
    ensures
        names_kept(a, c),
{
}

/// A name keeps standing for the first asset stored under it; a name
/// used for the first time stands for the asset just stored.
pub proof fn law_first_name_wins(names: Map<Seq<char>, AssetId>, name: Seq<char>, id: AssetId)
    ensures
        added_name(names, name, id).contains_key(name),
        names.contains_key(name) ==> added_name(names, name, id)[name] == names[name],
        !names.contains_key(name) ==> added_name(names, name, id)[name] == id,
        forall|other: Seq<char>|
            other != name ==> #[trigger] added_name(names, name, id).get(other) == names.get(other),
{
}

} // verus!
