//! Sprites!
//! We want atlasing, flipbook animations, layering, tilemaps...
//!
//! This module holds the bookkeeping: the grid of an image atlas, and the
//! layer manager that orders drawable items by layer and by the order in
//! which they were added.  The drawing itself happens around it.

use std::collections::BTreeMap;
use vstd::prelude::*;

verus! {

broadcast use vstd::std_specs::btree::group_btree_axioms, vstd::laws_cmp::group_laws_cmp;

/// An object that contains metadata on an image atlas, and the image
/// itself.
pub struct Atlas<I> {
    source: I,
    /// The number of sub-images across
    width: u32,
    /// The number of sub-images high
    height: u32,
    /// Width in pixels
    tile_width: u32,
    /// Height in pixels
    tile_height: u32,
}

impl<I> Atlas<I> {
    pub closed spec fn spec_source(&self) -> I {
        self.source
    }

    /// Sub-images across and high, and their width and height in pixels.
    pub closed spec fn spec_grid(&self) -> (u32, u32, u32, u32) {
        (self.width, self.height, self.tile_width, self.tile_height)
    }

    /// An atlas of `width` by `height` sub-images over a 128 by 128 pixel
    /// image; each sub-image is as many whole pixels wide and high as fit.
    pub fn new(source: I, width: u32, height: u32) -> (r: Atlas<I>)
        requires
            width > 0,
            height > 0,
        ensures
            r.spec_source() == source,
            r.spec_grid() == (width, height, 128u32 / width, 128u32 / height),
    {
        let tile_width = 128 / width;
        let tile_height = 128 / height;
        Atlas { source: source, width: width, height: height, tile_width: tile_width, tile_height: tile_height }
    }

    /// The image.
    pub fn source(&self) -> (r: &I)
        ensures
            *r == self.spec_source(),
    {
        &self.source
    }

    /// Width and height of a sub-image, in pixels.
    pub fn tile_size(&self) -> (r: (u32, u32))
        ensures
            r == (self.spec_grid().2, self.spec_grid().3),
    {
        (self.tile_width, self.tile_height)
    }
}

/// Where an item sits in a `LayerManager`: its layer, and its ID.
pub struct LayerIndex {
    layer: i32,
    id: usize,
}

impl LayerIndex {
    pub closed spec fn spec_key(&self) -> (i32, usize) {
        (self.layer, self.id)
    }

    pub fn new(layer: i32, id: usize) -> (r: Self)
        ensures
            r.spec_key() == (layer, id),
    {
        LayerIndex { layer: layer, id: id }
    }

    /// The position the index sorts by: first the layer, then the ID.
    pub fn key(&self) -> (r: (i32, usize))
        ensures
            r == self.spec_key(),
    {
        (self.layer, self.id)
    }
}

impl PartialEq for LayerIndex {
    // Two objects are the same if their ID is identical.
    // all ID's should be unique, so.
    fn eq(&self, other: &LayerIndex) -> (r: bool) {
        self.id == other.id
    }
}

impl vstd::std_specs::cmp::PartialEqSpecImpl for LayerIndex {
    open spec fn obeys_eq_spec() -> bool {
        true
    }

    open spec fn eq_spec(&self, other: &LayerIndex) -> bool {
        self.spec_key().1 == other.spec_key().1
    }
}

impl Eq for LayerIndex {

}

/// A `LayerManager` is in charge of ordering the items to draw.
/// It has a collection of items and hands them out in order of layer and
/// a monotonic ID that it manages on its own.
pub struct LayerManager<T> {
    layers: BTreeMap<(i32, usize), T>,
    next_id: usize,
}

/// Every item's ID was handed out already.
pub open spec fn ids_below<T>(items: Map<(i32, usize), T>, next_id: usize) -> bool {
    forall|k: (i32, usize)| #[trigger] items.contains_key(k) ==> k.1 <= next_id
}

impl<T> LayerManager<T> {
    /// The items, by (layer, ID).
    pub closed spec fn items(&self) -> Map<(i32, usize), T> {
        self.layers@
    }

    /// The last ID handed out.
    pub closed spec fn last_id(&self) -> usize {
        self.next_id
    }

    pub fn new() -> (r: Self)
        ensures
            r.items() == Map::<(i32, usize), T>::empty(),
            r.last_id() == 0,
    {
        LayerManager { layers: BTreeMap::new(), next_id: 0 }
    }

    fn next_id(&mut self) -> (r: usize)
        requires
            old(self).next_id < usize::MAX,
        ensures
            r == old(self).next_id + 1,
            final(self).next_id == r,
            final(self).layers == old(self).layers,
    {
        self.next_id = self.next_id + 1;
        self.next_id
    }

    /// Adds an item on the given layer, after every item added before.
    pub fn add(&mut self, layer: i32, item: T)
        requires
            old(self).last_id() < usize::MAX,
        ensures
            final(self).last_id() == old(self).last_id() + 1,
            final(self).items() == old(self).items().insert((layer, final(self).last_id()), item),
            ids_below(old(self).items(), old(self).last_id()) ==> ids_below(
                final(self).items(),
                final(self).last_id(),
            ),
    {
        let id = self.next_id();
        let idx = LayerIndex::new(layer, id);
        self.layers.insert(idx.key(), item);
    }

    /// The items, by (layer, ID); walking the map gives them in drawing
    /// order.
    pub fn layers(&self) -> (r: &BTreeMap<(i32, usize), T>)
        ensures
            r@ == self.items(),
    {
        &self.layers
    }
}

/// An item added to a manager never replaces one already there, and is
/// drawn after every item already on its layer: its ID is above theirs.
pub proof fn law_add_draws_last_on_layer<T>(items: Map<(i32, usize), T>, last_id: usize, layer: i32, k: (i32, usize))
    requires
        ids_below(items, last_id),
        last_id < usize::MAX,
        items.contains_key(k),
    ensures
        !items.contains_key((layer, (last_id + 1) as usize)),
        k.0 == layer ==> k.1 < last_id + 1,
{
}

} // verus!
