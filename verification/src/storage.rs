//! What a pass reads besides the scene: the map instances with the layer
//! nodes recorded for them, the map assets, and the events of a tick.

use vstd::prelude::*;
use crate::loader::TiledMap;

verus! {

/// The node that was built for a layer.
#[derive(Clone, Copy, Debug, PartialEq, Eq, Structural)]
pub struct LayerEntry {
    pub layer_index: u32,
    pub node: usize,
}

/// The first entry from index `from` on that is recorded for a layer.
pub open spec fn entry_from(entries: Seq<LayerEntry>, layer_index: u32, from: int) -> Option<int>
    decreases entries.len() - from,
{
    if from < 0 || from >= entries.len() {
        None
    } else if entries[from].layer_index == layer_index {
        Some(from)
    } else {
        entry_from(entries, layer_index, from + 1)
    }
}

/// The entries after a node is recorded for a layer: in the place of the
/// layer's entry if it has one, else behind the others.
pub open spec fn recorded(entries: Seq<LayerEntry>, layer_index: u32, node: usize) -> Seq<LayerEntry> {
    match entry_from(entries, layer_index, 0) {
        Some(k) => entries.update(k, LayerEntry { layer_index, node }),
        None => entries.push(LayerEntry { layer_index, node }),
    }
}

/// The node recorded for a layer, if any.
pub open spec fn node_of(entries: Seq<LayerEntry>, layer_index: u32) -> Option<usize> {
    match entry_from(entries, layer_index, 0) {
        Some(k) => Some(entries[k].node),
        None => None,
    }
}

/// The layer nodes of one map instance, by layer index.
#[derive(Clone, Debug, PartialEq, Eq)]
pub struct TiledLayersStorage {
    pub storage: Vec<LayerEntry>,
}

impl TiledLayersStorage {
    /// A storage without entries.
    pub fn new() -> (r: TiledLayersStorage)
        ensures
            r.storage@ == Seq::<LayerEntry>::empty(),
    {
        TiledLayersStorage { storage: Vec::new() }
    }

    fn position(&self, layer_index: u32) -> (r: Option<usize>)
        ensures
            r matches Some(k) ==> k < self.storage@.len() && entry_from(self.storage@, layer_index, 0) == Some(
                k as int,
            ),
            r is None ==> entry_from(self.storage@, layer_index, 0) is None,
    {
        let mut k: usize = 0;
        while k < self.storage.len()
            invariant
                k <= self.storage.len(),
                entry_from(self.storage@, layer_index, 0) == entry_from(self.storage@, layer_index, k as int),
            decreases self.storage.len() - k,
        {
            if self.storage[k].layer_index == layer_index {
                return Some(k);
            }
            k += 1;
        }
        None
    }

    /// The node recorded for a layer, if any.
    pub fn get(&self, layer_index: u32) -> (r: Option<usize>)
        ensures
            r == node_of(self.storage@, layer_index),
    {
        match self.position(layer_index) {
            Some(k) => Some(self.storage[k].node),
            None => None,
        }
    }

    /// Records a node for a layer, in place of the one recorded before.
    pub fn insert(&mut self, layer_index: u32, node: usize)
        ensures
            final(self).storage@ == recorded(old(self).storage@, layer_index, node),
    {
        match self.position(layer_index) {
            Some(k) => {
                self.storage[k] = LayerEntry { layer_index, node };
            },
            None => {
                self.storage.push(LayerEntry { layer_index, node });
            },
        }
        assert(self.storage@ =~= recorded(old(self).storage@, layer_index, node));
    }
}

impl Default for TiledLayersStorage {
    fn default() -> (r: TiledLayersStorage)
        ensures
            r.storage@ == Seq::<LayerEntry>::empty(),
    {
        TiledLayersStorage::new()
    }
}

/// A map instance in the scene: the asset it shows, the layer nodes built
/// for it, and its own node.
#[derive(Clone, Debug, PartialEq, Eq)]
pub struct TiledMapBundle {
    pub tiled_map: u64,
    pub storage: TiledLayersStorage,
    pub entity: usize,
}

/// What happened to a map asset.
#[derive(Clone, Copy, Debug, PartialEq, Eq, Structural)]
pub enum AssetEvent {
    Added { id: u64 },
    Modified { id: u64 },
    Removed { id: u64 },
    /// Anything else: of no concern to a pass.
    Other,
}

/// A map asset under its id.
#[derive(Clone, Debug, PartialEq, Eq)]
pub struct AssetEntry {
    pub id: u64,
    pub asset: TiledMap,
}

/// The map assets that are loaded.
#[derive(Clone, Debug, PartialEq, Eq)]
pub struct Assets {
    pub entries: Vec<AssetEntry>,
}

/// The first entry from index `from` on that has the id.
pub open spec fn asset_from(entries: Seq<AssetEntry>, id: u64, from: int) -> Option<int>
    decreases entries.len() - from,
{
    if from < 0 || from >= entries.len() {
        None
    } else if entries[from].id == id {
        Some(from)
    } else {
        asset_from(entries, id, from + 1)
    }
}

/// The index of the asset with the id, if it is loaded.
pub open spec fn asset_index(entries: Seq<AssetEntry>, id: u64) -> Option<int> {
    asset_from(entries, id, 0)
}

impl Assets {
    /// No assets.
    pub fn new() -> (r: Assets)
        ensures
            r.entries@ == Seq::<AssetEntry>::empty(),
    {
        Assets { entries: Vec::new() }
    }

    /// The index of the asset with the id, if it is loaded.
    pub fn find(&self, id: u64) -> (r: Option<usize>)
        ensures
            r matches Some(k) ==> k < self.entries@.len() && asset_index(self.entries@, id) == Some(k as int),
            r is None ==> asset_index(self.entries@, id) is None,
    {
        let mut k: usize = 0;
        while k < self.entries.len()
            invariant
                k <= self.entries.len(),
                asset_index(self.entries@, id) == asset_from(self.entries@, id, k as int),
            decreases self.entries.len() - k,
        {
            if self.entries[k].id == id {
                return Some(k);
            }
            k += 1;
        }
        None
    }
}

/// The ids without `id`, in their order.
pub open spec fn without_id(ids: Seq<u64>, id: u64) -> Seq<u64>
    decreases ids.len(),
{
    if ids.len() == 0 {
        ids
    } else if ids.last() == id {
        without_id(ids.drop_last(), id)
    } else {
        without_id(ids.drop_last(), id).push(ids.last())
    }
}

/// The ids with `id`, which goes to the end unless it is among them.
pub open spec fn with_id(ids: Seq<u64>, id: u64) -> Seq<u64> {
    if ids.contains(id) {
        ids
    } else {
        ids.push(id)
    }
}

/// The changed maps after one more event: an added or modified map is
/// changed, a removed one no longer is.
pub open spec fn after_event(changed: Seq<u64>, event: AssetEvent) -> Seq<u64> {
    match event {
        AssetEvent::Added { id } => with_id(changed, id),
        AssetEvent::Modified { id } => with_id(changed, id),
        AssetEvent::Removed { id } => without_id(changed, id),
        AssetEvent::Other => changed,
    }
}

/// The changed maps after the first `upto` events.
pub open spec fn after_events(events: Seq<AssetEvent>, upto: int) -> Seq<u64>
    decreases upto,
{
    if upto <= 0 || upto > events.len() {
        Seq::empty()
    } else {
        after_event(after_events(events, upto - 1), events[upto - 1])
    }
}

/// The ids with the first `upto` of `more`.
pub open spec fn with_ids(ids: Seq<u64>, more: Seq<u64>, upto: int) -> Seq<u64>
    decreases upto,
{
    if upto <= 0 || upto > more.len() {
        ids
    } else {
        with_id(with_ids(ids, more, upto - 1), more[upto - 1])
    }
}

/// The maps to rebuild in a tick: those that the events leave changed, in the
/// order in which they first changed, then the maps of the instances that are
/// new. No map is named twice.
pub open spec fn changed_maps(events: Seq<AssetEvent>, new_maps: Seq<u64>) -> Seq<u64> {
    with_ids(after_events(events, events.len() as int), new_maps, new_maps.len() as int)
}

fn contains_id(ids: &Vec<u64>, id: u64) -> (r: bool)
    ensures
        r == ids@.contains(id),
{
    let mut k: usize = 0;
    while k < ids.len()
        invariant
            k <= ids.len(),
            forall|j: int| 0 <= j < k ==> ids@[j] != id,
        decreases ids.len() - k,
    {
        if ids[k] == id {
            return true;
        }
        k += 1;
    }
    false
}

fn push_id(ids: &mut Vec<u64>, id: u64)
    ensures
        final(ids)@ == with_id(old(ids)@, id),
{
    if !contains_id(ids, id) {
        ids.push(id);
    }
}

fn remove_id(ids: &Vec<u64>, id: u64) -> (r: Vec<u64>)
    ensures
        r@ == without_id(ids@, id),
{
    let mut out: Vec<u64> = Vec::new();
    let mut k: usize = 0;
    while k < ids.len()
        invariant
            k <= ids.len(),
            out@ == without_id(ids@.take(k as int), id),
        decreases ids.len() - k,
    {
        proof {
            assert(ids@.take(k + 1).drop_last() =~= ids@.take(k as int));
        }
        if ids[k] != id {
            out.push(ids[k]);
        }
        k += 1;
    }
    proof {
        assert(ids@.take(ids.len() as int) =~= ids@);
    }
    out
}

/// The maps to rebuild in a tick.
pub fn collect_changed(events: &Vec<AssetEvent>, new_maps: &Vec<u64>) -> (r: Vec<u64>)
    ensures
        r@ == changed_maps(events@, new_maps@),
{
    let mut changed: Vec<u64> = Vec::new();
    let mut i: usize = 0;
    while i < events.len()
        invariant
            i <= events.len(),
            changed@ == after_events(events@, i as int),
        decreases events.len() - i,
    {
        match events[i] {
            AssetEvent::Added { id } => {
                push_id(&mut changed, id);
            },
            AssetEvent::Modified { id } => {
                push_id(&mut changed, id);
            },
            AssetEvent::Removed { id } => {
                changed = remove_id(&changed, id);
            },
            AssetEvent::Other => {},
        }
        i += 1;
    }
    let mut j: usize = 0;
    while j < new_maps.len()
        invariant
            j <= new_maps.len(),
            changed@ == with_ids(after_events(events@, events.len() as int), new_maps@, j as int),
        decreases new_maps.len() - j,
    {
        push_id(&mut changed, new_maps[j]);
        j += 1;
    }
    changed
}

} // verus!
