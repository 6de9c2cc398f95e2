//! The durable storage layer: one flat persistent byte store, partitioned by
//! a region allocator into independently growable regions; a durable scalar
//! cell for the identifier counter; and one durable ordered map of encoded
//! records per entity type. Every item here wraps the stable-structures
//! crate and is trusted: its contract states what that crate's source shows.
//!
//! The ghost model: each cell's current value and each map's contents have
//! an uninterpreted name, and a region carries the value a previous cell or
//! map left in it, if any. A region claimed from a fresh allocator for the
//! first time holds neither, so a cell or map initialized over it starts
//! from the given default or empty; a region recovered from a consumed cell
//! or map holds exactly what was last written, which is how a restart is
//! modelled and tested.
//!
//! Exhaustion or corruption of the backing store is fatal by design: the
//! wrapped operations abort the process rather than attempt repair, so no
//! contract here speaks of those outcomes.

use vstd::prelude::*;

use ic_stable_structures::memory_manager::MemoryId;
use ic_stable_structures::memory_manager::MemoryManager;
use ic_stable_structures::memory_manager::VirtualMemory;
use ic_stable_structures::Cell;
use ic_stable_structures::DefaultMemoryImpl;
use ic_stable_structures::StableBTreeMap;

verus! {

/// One flat persistent byte store. Every backend this crate constructs
/// starts empty; what a previous run left behind re-enters a store only
/// through a region recovered from a consumed cell or map.
#[verifier::external_body]
pub struct StorageBackend {
    inner: DefaultMemoryImpl,
}

/// A logical byte area carved out of one backend, identified by a small
/// integer id. A region value is a handle; it moves into exactly one cell
/// or map.
#[verifier::external_body]
pub struct Region {
    inner: VirtualMemory<DefaultMemoryImpl>,
}

/// Partitions one backend into regions. Regions never overlap, and a
/// region id keeps its meaning for the lifetime of the backing store.
#[verifier::external_body]
pub struct RegionAllocator {
    inner: MemoryManager<DefaultMemoryImpl>,
}

/// A durable scalar cell holding one unsigned 64-bit value.
#[verifier::external_body]
pub struct IdCell {
    inner: Cell<u64, VirtualMemory<DefaultMemoryImpl>>,
}

/// A durable ordered map from identifiers to encoded records.
#[verifier::external_body]
pub struct RecordMap {
    inner: StableBTreeMap<u64, Vec<u8>, VirtualMemory<DefaultMemoryImpl>>,
}

/// Whether the allocator was initialized over a backend that had never
/// been written.
pub uninterp spec fn allocator_fresh(a: RegionAllocator) -> bool;

/// The region ids this allocator has already handed out.
pub uninterp spec fn allocator_granted(a: RegionAllocator) -> Set<u8>;

/// The counter value a previous cell left in this region, if any.
pub uninterp spec fn region_stored_counter(r: Region) -> Option<u64>;

/// The map contents a previous record map left in this region, if any.
pub uninterp spec fn region_stored_records(r: Region) -> Option<Map<u64, Seq<u8>>>;

/// The value currently held by the cell.
pub uninterp spec fn id_cell_value(c: IdCell) -> u64;

/// The entries currently held by the map.
pub uninterp spec fn record_map_contents(m: RecordMap) -> Map<u64, Seq<u8>>;

impl StorageBackend {
    /// Relies on DefaultMemoryImpl::default, which yields an empty memory.
    #[verifier::external_body]
    pub fn new() -> (r: StorageBackend) {
        StorageBackend { inner: DefaultMemoryImpl::default() }
    }
}

impl RegionAllocator {
    /// Relies on MemoryManager::init. The backend it consumes was empty at
    /// construction and nothing can write to one before it is consumed, so
    /// the allocator starts fresh with no region handed out.
    #[verifier::external_body]
    pub fn init(backend: StorageBackend) -> (r: RegionAllocator)
        ensures
            allocator_fresh(r),
            allocator_granted(r) == Set::<u8>::empty(),
    {
        RegionAllocator { inner: MemoryManager::init(backend.inner) }
    }

    /// Relies on MemoryManager::get and MemoryId::new: the same id always
    /// denotes the same byte range. A region claimed for the first time
    /// from a fresh allocator is backed by storage nothing has written,
    /// so no previous cell value or map contents await in it. The id 255
    /// is reserved by the memory manager itself.
    #[verifier::external_body]
    pub fn claim_region(&mut self, id: u8) -> (r: Region)
        requires
            id < 255,
            !allocator_granted(*old(self)).contains(id),
        ensures
            allocator_granted(*final(self)) == allocator_granted(*old(self)).insert(id),
            allocator_fresh(*final(self)) == allocator_fresh(*old(self)),
            allocator_fresh(*old(self)) ==> region_stored_counter(r) is None
                && region_stored_records(r) is None,
    {
        Region { inner: self.inner.get(MemoryId::new(id)) }
    }
}

impl IdCell {
    /// Relies on Cell::init: when the region already holds a cell the
    /// stored value is loaded, otherwise the default is written and held.
    #[verifier::external_body]
    pub fn init(region: Region, default_value: u64) -> (r: IdCell)
        ensures
            id_cell_value(r) == (match region_stored_counter(region) {
                Some(v) => v,
                None => default_value,
            }),
    {
        IdCell { inner: Cell::init(region.inner, default_value) }
    }

    /// Relies on Cell::get, which returns the value held.
    #[verifier::external_body]
    pub fn get(&self) -> (r: u64)
        ensures
            r == id_cell_value(*self),
    {
        *self.inner.get()
    }

    /// Relies on Cell::set: the new value is written durably before the
    /// call returns, and the previous value is returned.
    #[verifier::external_body]
    pub fn set(&mut self, value: u64) -> (r: u64)
        ensures
            id_cell_value(*final(self)) == value,
            r == id_cell_value(*old(self)),
    {
        self.inner.set(value)
    }

    /// Relies on Cell::into_memory. Every write went through Cell::set,
    /// which flushes before caching, so the region holds the cell's value.
    #[verifier::external_body]
    pub fn into_region(self) -> (r: Region)
        ensures
            region_stored_counter(r) == Some(id_cell_value(self)),
    {
        Region { inner: self.inner.into_memory() }
    }
}

impl RecordMap {
    /// Relies on BTreeMap::init: when the region already holds a map it is
    /// loaded, otherwise an empty map is created. Real maps are finite.
    #[verifier::external_body]
    pub fn init(region: Region) -> (r: RecordMap)
        ensures
            record_map_contents(r) == (match region_stored_records(region) {
                Some(m) => m,
                None => Map::<u64, Seq<u8>>::empty(),
            }),
            record_map_contents(r).dom().finite(),
    {
        RecordMap { inner: StableBTreeMap::init(region.inner) }
    }

    /// Relies on BTreeMap::contains_key.
    #[verifier::external_body]
    pub fn contains_key(&self, key: u64) -> (r: bool)
        ensures
            r == record_map_contents(*self).dom().contains(key),
    {
        self.inner.contains_key(&key)
    }

    /// Relies on BTreeMap::get, which returns a decoded copy of the entry
    /// at the key, or nothing when the key is absent.
    #[verifier::external_body]
    pub fn get(&self, key: u64) -> (r: Option<Vec<u8>>)
        ensures
            (r matches Some(v) ==> record_map_contents(*self).dom().contains(key) && v@
                == record_map_contents(*self)[key]),
            r is None ==> !record_map_contents(*self).dom().contains(key),
    {
        self.inner.get(&key)
    }

    /// Relies on BTreeMap::insert: the entry is written durably, replacing
    /// any previous entry at the key, whose value is returned.
    #[verifier::external_body]
    pub fn insert(&mut self, key: u64, value: Vec<u8>) -> (r: Option<Vec<u8>>)
        ensures
            record_map_contents(*final(self)) == record_map_contents(*old(self)).insert(
                key,
                value@,
            ),
            (r matches Some(prev) ==> record_map_contents(*old(self)).dom().contains(key) && prev@
                == record_map_contents(*old(self))[key]),
            r is None ==> !record_map_contents(*old(self)).dom().contains(key),
    {
        self.inner.insert(key, value)
    }

    /// Relies on BTreeMap::len, the number of entries.
    #[verifier::external_body]
    pub fn len(&self) -> (r: u64)
        ensures
            r == record_map_contents(*self).dom().len(),
    {
        self.inner.len()
    }

    /// Relies on BTreeMap::iter and LazyEntry::into_pair: the iterator
    /// yields every entry exactly once, in ascending key order.
    #[verifier::external_body]
    pub fn entries(&self) -> (r: Vec<(u64, Vec<u8>)>)
        ensures
            r@.len() == record_map_contents(*self).dom().len(),
            forall|i: int|
                0 <= i < r@.len() ==> record_map_contents(*self).dom().contains(
                    (#[trigger] r@[i]).0,
                ) && r@[i].1@ == record_map_contents(*self)[r@[i].0],
            forall|k: u64|
                #[trigger] record_map_contents(*self).dom().contains(k) ==> exists|i: int|
                    0 <= i < r@.len() && (#[trigger] r@[i]).0 == k,
            forall|i: int, j: int|
                0 <= i < j < r@.len() ==> (#[trigger] r@[i]).0 < (#[trigger] r@[j]).0,
    {
        self.inner.iter().map(|e| e.into_pair()).collect()
    }

    /// Relies on BTreeMap::into_memory. Every mutation was written through
    /// before returning, so the region holds exactly the map's entries.
    #[verifier::external_body]
    pub fn into_region(self) -> (r: Region)
        ensures
            region_stored_records(r) == Some(record_map_contents(self)),
    {
        Region { inner: self.inner.into_memory() }
    }
}

} // verus!
