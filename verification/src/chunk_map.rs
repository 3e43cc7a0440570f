use vstd::prelude::*;
use crate::point::Point3i;
use crate::extent::Extent3i;
use crate::array::Array3x1;
use crate::chunk_indexer::{ChunkIndexer, is_power_of_two};

verus! {

/// The crate's chunk storage backend: chunks keyed by their chunk key, held
/// in insertion order with no key stored twice.
pub struct ChunkStorage<T> {
    pub keys: Vec<Point3i>,
    pub chunks: Vec<Array3x1<T>>,
}

impl<T: Copy> ChunkStorage<T> {
    /// One chunk per key, and no key twice.
    pub open spec fn wf(self) -> bool {
        &&& self.keys@.len() == self.chunks@.len()
        &&& forall|i: int, j: int|
            0 <= i < j < self.keys@.len() ==> self.keys@[i] != self.keys@[j]
    }

    pub open spec fn spec_has(self, key: Point3i) -> bool {
        self.keys@.contains(key)
    }

    pub open spec fn idx_of(self, key: Point3i) -> int {
        self.keys@.index_of(key)
    }

    /// The chunk stored at `key`; meaningful when `spec_has(key)`.
    pub open spec fn spec_chunk_at(self, key: Point3i) -> Array3x1<T> {
        self.chunks@[self.idx_of(key)]
    }

    /// In a well-formed storage a stored key has exactly one index.
    pub proof fn lemma_idx_of(self, key: Point3i)
        requires
            self.wf(),
            self.spec_has(key),
        ensures
            0 <= self.idx_of(key) < self.keys@.len(),
            self.keys@[self.idx_of(key)] == key,
            forall|i: int| 0 <= i < self.keys@.len() && self.keys@[i] == key ==> i == self.idx_of(key),
    {
        let w = choose|i: int| 0 <= i < self.keys@.len() && self.keys@[i] == key;
        assert(self.keys@[w] == key);
        assert forall|i: int|
            0 <= i < self.keys@.len() && self.keys@[i] == key implies i == self.idx_of(key) by {
            if i < self.idx_of(key) || self.idx_of(key) < i {
                assert(self.keys@[i] != self.keys@[self.idx_of(key)]);
            }
        }
    }

    pub fn new() -> (r: Self)
        ensures
            r.wf(),
            r.keys@.len() == 0,
            forall|k: Point3i| !r.spec_has(k),
    {
        ChunkStorage { keys: Vec::new(), chunks: Vec::new() }
    }

    /// The index of `key` in the storage, if it is present.
    fn find(&self, key: Point3i) -> (r: Option<usize>)
        requires
            self.wf(),
        ensures
            match r {
                Some(i) => self.spec_has(key) && i == self.idx_of(key),
                None => !self.spec_has(key),
            },
    {
        let n: usize = self.keys.len();
        let mut i: usize = 0;
        while i < n
            invariant
                0 <= i <= n,
                n == self.keys@.len(),
                self.wf(),
                forall|j: int| 0 <= j < i ==> self.keys@[j] != key,
            decreases n - i,
        {
            let ki = self.keys[i];
            if ki.x == key.x && ki.y == key.y && ki.z == key.z {
                proof {
                    assert(self.keys@[i as int] == key);
                    self.lemma_idx_of(key);
                }
                return Some(i);
            }
            i = i + 1;
        }
        None
    }

    /// Borrow the chunk stored at `key`.
    pub fn get(&self, key: Point3i) -> (r: Option<&Array3x1<T>>)
        requires
            self.wf(),
        ensures
            match r {
                Some(c) => self.spec_has(key) && *c == self.spec_chunk_at(key),
                None => !self.spec_has(key),
            },
    {
        match self.find(key) {
            Some(i) => Some(&self.chunks[i]),
            None => None,
        }
    }

    /// Store `chunk` at `key`, replacing any previous chunk there.
    pub fn write(&mut self, key: Point3i, chunk: Array3x1<T>)
        requires
            old(self).wf(),
        ensures
            final(self).wf(),
            final(self).spec_has(key),
            final(self).spec_chunk_at(key) == chunk,
            forall|k2: Point3i|
                k2 != key ==> (final(self).spec_has(k2) == old(self).spec_has(k2)),
            forall|k2: Point3i|
                k2 != key && old(self).spec_has(k2) ==> final(self).spec_chunk_at(k2) == old(
                    self,
                ).spec_chunk_at(k2),
            old(self).spec_has(key) ==> final(self).keys@ == old(self).keys@,
            !old(self).spec_has(key) ==> final(self).keys@ == old(self).keys@.push(key),
    {
        proof {
            if old(self).spec_has(key) {
                old(self).lemma_idx_of(key);
            }
        }
        match self.find(key) {
            Some(i) => {
                self.chunks.set(i, chunk);
                proof {
                    lemma_storage_update(*old(self), *self, key, chunk);
                }
            },
            None => {
                self.keys.push(key);
                self.chunks.push(chunk);
                proof {
                    lemma_storage_push(*old(self), *self, key, chunk);
                }
            },
        }
    }

    /// Remove and return the chunk stored at `key`.
    pub fn pop(&mut self, key: Point3i) -> (r: Option<Array3x1<T>>)
        requires
            old(self).wf(),
        ensures
            final(self).wf(),
            !final(self).spec_has(key),
            match r {
                Some(c) => old(self).spec_has(key) && c == old(self).spec_chunk_at(key)
                    && final(self).keys@ == old(self).keys@.remove(old(self).idx_of(key)),
                None => !old(self).spec_has(key) && *final(self) == *old(self),
            },
            forall|k2: Point3i|
                k2 != key ==> (final(self).spec_has(k2) == old(self).spec_has(k2)),
            forall|k2: Point3i|
                k2 != key && old(self).spec_has(k2) ==> final(self).spec_chunk_at(k2) == old(
                    self,
                ).spec_chunk_at(k2),
    {
        match self.find(key) {
            Some(i) => {
                proof {
                    old(self).lemma_idx_of(key);
                }
                let _removed_key = self.keys.remove(i);
                let chunk = self.chunks.remove(i);
                proof {
                    lemma_storage_remove(*old(self), *self, key);
                }
                Some(chunk)
            },
            None => None,
        }
    }

    pub fn contains_key(&self, key: Point3i) -> (r: bool)
        requires
            self.wf(),
        ensures
            r == self.spec_has(key),
    {
        self.find(key).is_some()
    }

    /// Mutably borrow the chunk stored at `key`.
    pub fn borrow_mut(&mut self, key: Point3i) -> (r: &mut Array3x1<T>)
        requires
            old(self).wf(),
            old(self).spec_has(key),
        ensures
            *r == old(self).spec_chunk_at(key),
            final(self).wf(),
            final(self).keys@ == old(self).keys@,
            final(self).chunks@ == old(self).chunks@.update(old(self).idx_of(key), *final(r)),
            0 <= old(self).idx_of(key) < old(self).keys@.len(),
            old(self).keys@[old(self).idx_of(key)] == key,
            final(self).spec_has(key),
            final(self).spec_chunk_at(key) == *final(r),
            forall|k2: Point3i|
                k2 != key ==> (final(self).spec_has(k2) == old(self).spec_has(k2)),
            forall|k2: Point3i|
                k2 != key && old(self).spec_has(k2) ==> final(self).spec_chunk_at(k2) == old(
                    self,
                ).spec_chunk_at(k2),
    {
        proof {
            old(self).lemma_idx_of(key);
        }
        let i: usize = match self.find(key) {
            Some(i) => i,
            None => 0,
        };
        &mut self.chunks[i]
    }

    /// Remove the chunk stored at `key`, if any.
    pub fn delete(&mut self, key: Point3i)
        requires
            old(self).wf(),
        ensures
            final(self).wf(),
            !final(self).spec_has(key),
            forall|k2: Point3i|
                k2 != key ==> (final(self).spec_has(k2) == old(self).spec_has(k2)),
            forall|k2: Point3i|
                k2 != key && old(self).spec_has(k2) ==> final(self).spec_chunk_at(k2) == old(
                    self,
                ).spec_chunk_at(k2),
            !old(self).spec_has(key) ==> *final(self) == *old(self),
    {
        let _ = self.pop(key);
    }
}

/// After overwriting the chunk at `key`'s index, lookups behave like a map
/// update.
proof fn lemma_storage_update<T: Copy>(
    pre: ChunkStorage<T>,
    post: ChunkStorage<T>,
    key: Point3i,
    chunk: Array3x1<T>,
)
    requires
        pre.wf(),
        pre.spec_has(key),
        post.keys@ == pre.keys@,
        post.chunks@ == pre.chunks@.update(pre.idx_of(key), chunk),
    ensures
        post.wf(),
        post.spec_has(key),
        post.spec_chunk_at(key) == chunk,
        forall|k2: Point3i| k2 != key ==> (post.spec_has(k2) == pre.spec_has(k2)),
        forall|k2: Point3i|
            k2 != key && pre.spec_has(k2) ==> post.spec_chunk_at(k2) == pre.spec_chunk_at(k2),
{
    pre.lemma_idx_of(key);
    post.lemma_idx_of(key);
    assert forall|k2: Point3i|
        k2 != key && pre.spec_has(k2) implies post.spec_chunk_at(k2) == pre.spec_chunk_at(k2) by {
        pre.lemma_idx_of(k2);
        post.lemma_idx_of(k2);
        assert(post.idx_of(k2) == pre.idx_of(k2));
        assert(pre.idx_of(k2) != pre.idx_of(key));
    }
}

/// After pushing a fresh key and its chunk, lookups behave like a map insert.
proof fn lemma_storage_push<T: Copy>(
    pre: ChunkStorage<T>,
    post: ChunkStorage<T>,
    key: Point3i,
    chunk: Array3x1<T>,
)
    requires
        pre.wf(),
        !pre.spec_has(key),
        post.keys@ == pre.keys@.push(key),
        post.chunks@ == pre.chunks@.push(chunk),
    ensures
        post.wf(),
        post.spec_has(key),
        post.spec_chunk_at(key) == chunk,
        forall|k2: Point3i| k2 != key ==> (post.spec_has(k2) == pre.spec_has(k2)),
        forall|k2: Point3i|
            k2 != key && pre.spec_has(k2) ==> post.spec_chunk_at(k2) == pre.spec_chunk_at(k2),
{
    let n = pre.keys@.len() as int;
    assert(post.keys@[n] == key);
    assert(post.wf()) by {
        assert forall|i: int, j: int|
            0 <= i < j < post.keys@.len() implies post.keys@[i] != post.keys@[j] by {
            if j < n {
            } else {
                assert(post.keys@[i] == pre.keys@[i]);
                assert(pre.spec_has(pre.keys@[i]));
            }
        }
    }
    assert(post.spec_has(key));
    post.lemma_idx_of(key);
    assert(post.idx_of(key) == n);
    assert forall|k2: Point3i| k2 != key implies (post.spec_has(k2) == pre.spec_has(k2)) by {
        if post.spec_has(k2) {
            let i = choose|i: int| 0 <= i < post.keys@.len() && post.keys@[i] == k2;
            assert(i != n);
            assert(pre.keys@[i] == k2);
        }
        if pre.spec_has(k2) {
            let i = choose|i: int| 0 <= i < pre.keys@.len() && pre.keys@[i] == k2;
            assert(post.keys@[i] == k2);
        }
    }
    assert forall|k2: Point3i|
        k2 != key && pre.spec_has(k2) implies post.spec_chunk_at(k2) == pre.spec_chunk_at(k2) by {
        pre.lemma_idx_of(k2);
        post.lemma_idx_of(k2);
        assert(post.keys@[pre.idx_of(k2)] == k2);
        assert(post.idx_of(k2) == pre.idx_of(k2));
    }
}

/// After removing a key and its chunk, lookups behave like a map removal.
proof fn lemma_storage_remove<T: Copy>(pre: ChunkStorage<T>, post: ChunkStorage<T>, key: Point3i)
    requires
        pre.wf(),
        pre.spec_has(key),
        post.keys@ == pre.keys@.remove(pre.idx_of(key)),
        post.chunks@ == pre.chunks@.remove(pre.idx_of(key)),
    ensures
        post.wf(),
        !post.spec_has(key),
        forall|k2: Point3i| k2 != key ==> (post.spec_has(k2) == pre.spec_has(k2)),
        forall|k2: Point3i|
            k2 != key && pre.spec_has(k2) ==> post.spec_chunk_at(k2) == pre.spec_chunk_at(k2),
{
    pre.lemma_idx_of(key);
    let r = pre.idx_of(key);
    let n = pre.keys@.len() as int;
    assert forall|i: int| 0 <= i < post.keys@.len() implies post.keys@[i] == (if i < r {
        pre.keys@[i]
    } else {
        pre.keys@[i + 1]
    }) by {}
    assert(post.wf());
    assert(!post.spec_has(key)) by {
        if post.spec_has(key) {
            let i = choose|i: int| 0 <= i < post.keys@.len() && post.keys@[i] == key;
            if i < r {
                assert(pre.keys@[i] == key);
            } else {
                assert(pre.keys@[i + 1] == key);
            }
        }
    }
    assert forall|k2: Point3i| k2 != key implies (post.spec_has(k2) == pre.spec_has(k2)) by {
        if post.spec_has(k2) {
            let i = choose|i: int| 0 <= i < post.keys@.len() && post.keys@[i] == k2;
            if i < r {
                assert(pre.keys@[i] == k2);
            } else {
                assert(pre.keys@[i + 1] == k2);
            }
        }
        if pre.spec_has(k2) {
            let i = choose|i: int| 0 <= i < pre.keys@.len() && pre.keys@[i] == k2;
            assert(i != r);
            if i < r {
                assert(post.keys@[i] == k2);
            } else {
                assert(post.keys@[i - 1] == k2);
            }
        }
    }
    assert forall|k2: Point3i|
        k2 != key && pre.spec_has(k2) implies post.spec_chunk_at(k2) == pre.spec_chunk_at(k2) by {
        pre.lemma_idx_of(k2);
        post.lemma_idx_of(k2);
        let i = pre.idx_of(k2);
        if i < r {
            assert(post.keys@[i] == k2);
            assert(post.idx_of(k2) == i);
        } else {
            assert(post.keys@[i - 1] == k2);
            assert(post.idx_of(k2) == i - 1);
        }
    }
}

} // verus!

verus! {

/// An object that knows how to construct all-ambient chunks for a chunk map:
/// it fixes the chunk shape and the ambient value.
#[derive(Clone, Copy, PartialEq, Eq, Structural)]
pub struct ChunkMapBuilderNxM<T> {
    pub chunk_shape: Point3i,
    pub ambient_value: T,
}

/// A builder usable by a map: power-of-two chunk shape whose volume fits in
/// memory.
pub open spec fn builder_wf<T>(b: ChunkMapBuilderNxM<T>) -> bool {
    &&& is_power_of_two(b.chunk_shape.x)
    &&& is_power_of_two(b.chunk_shape.y)
    &&& is_power_of_two(b.chunk_shape.z)
    &&& b.chunk_shape.x as int * b.chunk_shape.y as int * b.chunk_shape.z as int <= usize::MAX
}

impl<T: Copy> ChunkMapBuilderNxM<T> {
    pub fn new(chunk_shape: Point3i, ambient_value: T) -> (r: Self)
        ensures
            r.chunk_shape == chunk_shape,
            r.ambient_value == ambient_value,
    {
        ChunkMapBuilderNxM { chunk_shape, ambient_value }
    }

    pub fn chunk_shape(&self) -> (r: Point3i)
        ensures
            r == self.chunk_shape,
    {
        self.chunk_shape
    }

    pub fn ambient_value(&self) -> (r: T)
        ensures
            r == self.ambient_value,
    {
        self.ambient_value
    }

    /// Construct a new chunk over `extent` holding only the ambient value.
    pub fn new_ambient(&self, extent: Extent3i) -> (r: Array3x1<T>)
        requires
            extent.wf(),
            extent.volume() <= usize::MAX,
        ensures
            r.wf(),
            r.extent == extent,
            forall|p: Point3i| extent.spec_contains(p) ==> r.value_at(p) == self.ambient_value,
    {
        Array3x1::fill(extent, self.ambient_value)
    }

    /// Create a new map with the given storage, which serves both reads and
    /// writes.
    pub fn build_with_rw_storage(self, storage: ChunkStorage<T>) -> (r: ChunkMap<T>)
        requires
            builder_wf(self),
            storage.wf(),
            forall|i: int|
                0 <= i < storage.keys@.len() ==> #[trigger] storage_entry_compat(
                    self.chunk_shape,
                    storage,
                    i,
                ),
        ensures
            r.wf(),
            r.builder == self,
            r.indexer.chunk_shape == self.chunk_shape,
            r.ambient_value == self.ambient_value,
            r.storage == storage,
    {
        ChunkMap::new(self, storage)
    }

    /// Create a new map with the given storage, used only for reads.
    pub fn build_with_read_storage(self, storage: ChunkStorage<T>) -> (r: ChunkMap<T>)
        requires
            builder_wf(self),
            storage.wf(),
            forall|i: int|
                0 <= i < storage.keys@.len() ==> #[trigger] storage_entry_compat(
                    self.chunk_shape,
                    storage,
                    i,
                ),
        ensures
            r.wf(),
            r.builder == self,
            r.indexer.chunk_shape == self.chunk_shape,
            r.ambient_value == self.ambient_value,
            r.storage == storage,
    {
        ChunkMap::new(self, storage)
    }

    /// Create a new map with the given storage, used only for writes.
    pub fn build_with_write_storage(self, storage: ChunkStorage<T>) -> (r: ChunkMap<T>)
        requires
            builder_wf(self),
            storage.wf(),
            forall|i: int|
                0 <= i < storage.keys@.len() ==> #[trigger] storage_entry_compat(
                    self.chunk_shape,
                    storage,
                    i,
                ),
        ensures
            r.wf(),
            r.builder == self,
            r.indexer.chunk_shape == self.chunk_shape,
            r.ambient_value == self.ambient_value,
            r.storage == storage,
    {
        ChunkMap::new(self, storage)
    }

    /// Create a new map backed by an empty keyed storage.
    pub fn build_with_hash_map_storage(self) -> (r: ChunkMap<T>)
        requires
            builder_wf(self),
        ensures
            r.wf(),
            r.builder == self,
            r.indexer.chunk_shape == self.chunk_shape,
            r.ambient_value == self.ambient_value,
            r.storage.keys@.len() == 0,
            forall|k: Point3i| !r.has_chunk(k),
    {
        ChunkMap::new(self, ChunkStorage::new())
    }
}

/// The stored entry `i` belongs in a map of chunk shape `chunk_shape`: its
/// key is aligned and in range, and its chunk spans exactly that chunk's
/// extent.
pub open spec fn storage_entry_compat<T: Copy>(
    chunk_shape: Point3i,
    storage: ChunkStorage<T>,
    i: int,
) -> bool {
    let k = storage.keys@[i];
    let c = storage.chunks@[i];
    &&& k.x as int % chunk_shape.x as int == 0
    &&& k.y as int % chunk_shape.y as int == 0
    &&& k.z as int % chunk_shape.z as int == 0
    &&& k.x + chunk_shape.x <= i32::MAX
    &&& k.y + chunk_shape.y <= i32::MAX
    &&& k.z + chunk_shape.z <= i32::MAX
    &&& c.extent == (Extent3i { minimum: k, shape: chunk_shape })
    &&& c.wf()
}

/// A sparse lattice map made up of same-shaped dense chunks.  It takes a
/// value at every possible point: reads outside of the stored chunks return
/// the ambient value fixed at construction.
pub struct ChunkMap<T> {
    /// Translates from lattice coordinates to chunk key space.
    pub indexer: ChunkIndexer,
    pub storage: ChunkStorage<T>,
    pub builder: ChunkMapBuilderNxM<T>,
    pub ambient_value: T,
}

impl<T: Copy> ChunkMap<T> {
    /// Entry `i` of the storage is aligned, in range, and spans its chunk's
    /// extent.
    pub open spec fn entry_wf(self, i: int) -> bool {
        storage_entry_compat(self.indexer.chunk_shape, self.storage, i)
    }

    pub open spec fn wf(self) -> bool {
        &&& self.indexer.wf()
        &&& self.storage.wf()
        &&& builder_wf(self.builder)
        &&& self.builder.chunk_shape == self.indexer.chunk_shape
        &&& self.ambient_value == self.builder.ambient_value
        &&& forall|i: int| 0 <= i < self.storage.keys@.len() ==> #[trigger] self.entry_wf(i)
    }

    pub open spec fn has_chunk(self, key: Point3i) -> bool {
        self.storage.spec_has(key)
    }

    pub open spec fn chunk_at(self, key: Point3i) -> Array3x1<T> {
        self.storage.spec_chunk_at(key)
    }

    /// The value the map takes at `p`: the owning chunk's value if that chunk
    /// is stored, the ambient value otherwise.
    pub open spec fn value_at(self, p: Point3i) -> T {
        let key = self.indexer.spec_key(p);
        if self.has_chunk(key) {
            self.chunk_at(key).value_at(p)
        } else {
            self.ambient_value
        }
    }

    /// A stored chunk has the well-formed extent of its key.
    pub proof fn lemma_stored_chunk(self, key: Point3i)
        requires
            self.wf(),
            self.has_chunk(key),
        ensures
            self.indexer.spec_key_is_valid(key),
            self.indexer.spec_key_in_range(key),
            self.chunk_at(key).extent == self.indexer.spec_chunk_extent(key),
            self.chunk_at(key).wf(),
    {
        self.storage.lemma_idx_of(key);
        assert(self.entry_wf(self.storage.idx_of(key)));
    }

    /// Creates a map using the given builder and storage.
    fn new(builder: ChunkMapBuilderNxM<T>, storage: ChunkStorage<T>) -> (r: Self)
        requires
            builder_wf(builder),
            storage.wf(),
            forall|i: int|
                0 <= i < storage.keys@.len() ==> #[trigger] storage_entry_compat(
                    builder.chunk_shape,
                    storage,
                    i,
                ),
        ensures
            r.wf(),
            r.builder == builder,
            r.indexer.chunk_shape == builder.chunk_shape,
            r.ambient_value == builder.ambient_value,
            r.storage == storage,
    {
        let indexer = ChunkIndexer::new(builder.chunk_shape());
        let ambient_value = builder.ambient_value();
        ChunkMap { indexer, storage, builder, ambient_value }
    }

    /// Consumes `self` and returns the backing chunk storage.
    pub fn take_storage(self) -> (r: ChunkStorage<T>)
        ensures
            r == self.storage,
    {
        self.storage
    }

    /// Borrows the internal chunk storage.
    pub fn storage(&self) -> (r: &ChunkStorage<T>)
        ensures
            r == &self.storage,
    {
        &self.storage
    }

    /// Mutably borrows the internal chunk storage.
    pub fn storage_mut(&mut self) -> (r: &mut ChunkStorage<T>)
        ensures
            *r == old(self).storage,
            final(self).storage == *final(r),
            final(self).indexer == old(self).indexer,
            final(self).builder == old(self).builder,
            final(self).ambient_value == old(self).ambient_value,
    {
        &mut self.storage
    }

    pub fn builder(&self) -> (r: &ChunkMapBuilderNxM<T>)
        ensures
            r == &self.builder,
    {
        &self.builder
    }

    /// Borrow the chunk at `key`; the key must come from the indexer.
    pub fn get_chunk(&self, key: Point3i) -> (r: Option<&Array3x1<T>>)
        requires
            self.wf(),
            self.indexer.spec_key_is_valid(key),
        ensures
            match r {
                Some(c) => self.has_chunk(key) && *c == self.chunk_at(key),
                None => !self.has_chunk(key),
            },
    {
        self.storage.get(key)
    }
}

} // verus!

verus! {

/// If a well-formed map changes at most the chunk stored under one key, and
/// whatever now sits there fits that key, the map is still well formed.
proof fn lemma_map_wf_one_key<T: Copy>(pre: ChunkMap<T>, post: ChunkMap<T>, key: Point3i)
    requires
        pre.wf(),
        post.indexer == pre.indexer,
        post.builder == pre.builder,
        post.ambient_value == pre.ambient_value,
        post.storage.wf(),
        post.has_chunk(key) ==> pre.indexer.spec_key_is_valid(key)
            && pre.indexer.spec_key_in_range(key) && post.chunk_at(key).extent
            == pre.indexer.spec_chunk_extent(key) && post.chunk_at(key).wf(),
        forall|k2: Point3i| k2 != key ==> (post.has_chunk(k2) == pre.has_chunk(k2)),
        forall|k2: Point3i|
            k2 != key && pre.has_chunk(k2) ==> post.chunk_at(k2) == pre.chunk_at(k2),
    ensures
        post.wf(),
{
    assert forall|i: int| 0 <= i < post.storage.keys@.len() implies #[trigger] post.entry_wf(
        i,
    ) by {
        let k = post.storage.keys@[i];
        assert(post.storage.spec_has(k));
        post.storage.lemma_idx_of(k);
        assert(post.storage.idx_of(k) == i);
        if k != key {
            assert(pre.has_chunk(k));
            pre.storage.lemma_idx_of(k);
            let j = pre.storage.idx_of(k);
            assert(pre.entry_wf(j));
            assert(post.chunk_at(k) == pre.chunk_at(k));
        }
    }
}

impl<T: Copy> ChunkMap<T> {
    /// Overwrite the chunk at `key` with `chunk`, dropping the previous one.
    /// The chunk must span exactly the extent of the chunk at `key`.
    pub fn write_chunk(&mut self, key: Point3i, chunk: Array3x1<T>)
        requires
            old(self).wf(),
            old(self).indexer.spec_key_is_valid(key),
            old(self).indexer.spec_key_in_range(key),
            chunk.wf(),
            chunk.extent == old(self).indexer.spec_chunk_extent(key),
        ensures
            final(self).wf(),
            final(self).indexer == old(self).indexer,
            final(self).builder == old(self).builder,
            final(self).ambient_value == old(self).ambient_value,
            final(self).has_chunk(key),
            final(self).chunk_at(key) == chunk,
            forall|k2: Point3i|
                k2 != key ==> (final(self).has_chunk(k2) == old(self).has_chunk(k2)),
            forall|k2: Point3i|
                k2 != key && old(self).has_chunk(k2) ==> final(self).chunk_at(k2) == old(
                    self,
                ).chunk_at(k2),
            old(self).has_chunk(key) ==> final(self).storage.keys@ == old(self).storage.keys@,
            !old(self).has_chunk(key) ==> final(self).storage.keys@ == old(
                self,
            ).storage.keys@.push(key),
    {
        self.storage.write(key, chunk);
        proof {
            lemma_map_wf_one_key(*old(self), *self, key);
        }
    }

    /// Replace the chunk at `key` with `chunk`, returning the old one.
    pub fn replace_chunk(&mut self, key: Point3i, chunk: Array3x1<T>) -> (r: Option<Array3x1<T>>)
        requires
            old(self).wf(),
            old(self).indexer.spec_key_is_valid(key),
            old(self).indexer.spec_key_in_range(key),
            chunk.wf(),
            chunk.extent == old(self).indexer.spec_chunk_extent(key),
        ensures
            final(self).wf(),
            final(self).indexer == old(self).indexer,
            final(self).builder == old(self).builder,
            final(self).ambient_value == old(self).ambient_value,
            final(self).has_chunk(key),
            final(self).chunk_at(key) == chunk,
            forall|k2: Point3i|
                k2 != key ==> (final(self).has_chunk(k2) == old(self).has_chunk(k2)),
            forall|k2: Point3i|
                k2 != key && old(self).has_chunk(k2) ==> final(self).chunk_at(k2) == old(
                    self,
                ).chunk_at(k2),
            match r {
                Some(c) => old(self).has_chunk(key) && c == old(self).chunk_at(key),
                None => !old(self).has_chunk(key),
            },
    {
        let r = self.storage.pop(key);
        self.storage.write(key, chunk);
        proof {
            lemma_map_wf_one_key(*old(self), *self, key);
        }
        r
    }

    /// Remove the chunk at `key`.
    pub fn delete_chunk(&mut self, key: Point3i)
        requires
            old(self).wf(),
            old(self).indexer.spec_key_is_valid(key),
        ensures
            final(self).wf(),
            final(self).indexer == old(self).indexer,
            final(self).builder == old(self).builder,
            final(self).ambient_value == old(self).ambient_value,
            !final(self).has_chunk(key),
            forall|k2: Point3i|
                k2 != key ==> (final(self).has_chunk(k2) == old(self).has_chunk(k2)),
            forall|k2: Point3i|
                k2 != key && old(self).has_chunk(k2) ==> final(self).chunk_at(k2) == old(
                    self,
                ).chunk_at(k2),
    {
        self.storage.delete(key);
        proof {
            lemma_map_wf_one_key(*old(self), *self, key);
        }
    }

    /// Remove the chunk at `key` and hand it back.
    pub fn pop_chunk(&mut self, key: Point3i) -> (r: Option<Array3x1<T>>)
        requires
            old(self).wf(),
            old(self).indexer.spec_key_is_valid(key),
        ensures
            final(self).wf(),
            final(self).indexer == old(self).indexer,
            final(self).builder == old(self).builder,
            final(self).ambient_value == old(self).ambient_value,
            !final(self).has_chunk(key),
            forall|k2: Point3i|
                k2 != key ==> (final(self).has_chunk(k2) == old(self).has_chunk(k2)),
            forall|k2: Point3i|
                k2 != key && old(self).has_chunk(k2) ==> final(self).chunk_at(k2) == old(
                    self,
                ).chunk_at(k2),
            match r {
                Some(c) => old(self).has_chunk(key) && c == old(self).chunk_at(key),
                None => !old(self).has_chunk(key),
            },
    {
        let r = self.storage.pop(key);
        proof {
            lemma_map_wf_one_key(*old(self), *self, key);
        }
        r
    }

    /// Read the value the map takes at `p`: the stored chunk's value, or the
    /// ambient value where no chunk is stored.  Reading never creates
    /// storage.
    pub fn get(&self, p: Point3i) -> (r: T)
        requires
            self.wf(),
        ensures
            r == self.value_at(p),
    {
        let key = self.indexer.chunk_key_containing_point(p);
        match self.storage.get(key) {
            Some(chunk) => {
                proof {
                    self.lemma_stored_chunk(key);
                }
                chunk.get(p)
            },
            None => self.ambient_value,
        }
    }

    /// Borrow the value the map takes at `p`; the ambient value is borrowed
    /// where no chunk is stored.
    pub fn get_ref(&self, p: Point3i) -> (r: &T)
        requires
            self.wf(),
        ensures
            *r == self.value_at(p),
    {
        let key = self.indexer.chunk_key_containing_point(p);
        match self.storage.get(key) {
            Some(chunk) => {
                proof {
                    self.lemma_stored_chunk(key);
                }
                chunk.get_ref(p)
            },
            None => &self.ambient_value,
        }
    }

    /// Write the value `v` at `p`.  If the owning chunk is absent, it is
    /// first materialized with the ambient value.
    pub fn set(&mut self, p: Point3i, v: T)
        requires
            old(self).wf(),
            old(self).indexer.spec_point_in_range(p),
        ensures
            final(self).wf(),
            final(self).indexer == old(self).indexer,
            final(self).builder == old(self).builder,
            final(self).ambient_value == old(self).ambient_value,
            final(self).value_at(p) == v,
            forall|q: Point3i| q != p ==> final(self).value_at(q) == old(self).value_at(q),
            forall|k2: Point3i|
                k2 != old(self).indexer.spec_key(p) ==> (final(self).has_chunk(k2) == old(
                    self,
                ).has_chunk(k2)),
            final(self).has_chunk(old(self).indexer.spec_key(p)),
    {
        let key = self.indexer.chunk_key_containing_point(p);
        let ghost mid0 = *self;
        if !self.storage.contains_key(key) {
            let extent = self.indexer.extent_for_chunk_at_key(key);
            let chunk = self.builder.new_ambient(extent);
            self.storage.write(key, chunk);
            proof {
                lemma_map_wf_one_key(mid0, *self, key);
            }
        }
        let ghost mid = *self;
        proof {
            self.lemma_stored_chunk(key);
        }
        let c = self.storage.borrow_mut(key);
        c.set(p, v);
        proof {
            lemma_map_wf_one_key(mid, *self, key);
            assert forall|q: Point3i| q != p implies self.value_at(q) == old(self).value_at(q) by {
                let kq = self.indexer.spec_key(q);
                self.indexer.lemma_point_in_own_chunk(q);
                if kq == key {
                    if old(self).has_chunk(key) {
                        assert(mid.chunk_at(key) == old(self).chunk_at(key));
                    } else {
                        assert(mid.chunk_at(key).value_at(q) == self.ambient_value);
                    }
                }
            }
        }
    }
}

} // verus!

verus! {

impl<T: Copy> ChunkMap<T> {
    /// Mutably borrow the value at `p`.  If the owning chunk is absent, it is
    /// first materialized with the ambient value.
    pub fn get_mut(&mut self, p: Point3i) -> (r: &mut T)
        requires
            old(self).wf(),
            old(self).indexer.spec_point_in_range(p),
        ensures
            *r == old(self).value_at(p),
            final(self).wf(),
            final(self).indexer == old(self).indexer,
            final(self).builder == old(self).builder,
            final(self).ambient_value == old(self).ambient_value,
            final(self).value_at(p) == *final(r),
            forall|q: Point3i| q != p ==> final(self).value_at(q) == old(self).value_at(q),
            final(self).has_chunk(old(self).indexer.spec_key(p)),
            forall|k2: Point3i|
                k2 != old(self).indexer.spec_key(p) ==> (final(self).has_chunk(k2) == old(
                    self,
                ).has_chunk(k2)),
    {
        let key = self.indexer.chunk_key_containing_point(p);
        let ghost m0 = *self;
        if !self.storage.contains_key(key) {
            let extent = self.indexer.extent_for_chunk_at_key(key);
            let chunk = self.builder.new_ambient(extent);
            self.storage.write(key, chunk);
            proof {
                lemma_map_wf_one_key(m0, *self, key);
            }
        }
        let ghost mid = *self;
        proof {
            self.lemma_stored_chunk(key);
            self.storage.lemma_idx_of(key);
            assert forall|i: int| #![trigger mid.storage.keys@[i]]
                0 <= i < mid.storage.keys@.len() implies storage_entry_compat(
                mid.indexer.chunk_shape,
                mid.storage,
                i,
            ) by {
                assert(mid.entry_wf(i));
            }
            assert forall|q: Point3i| #![trigger mid.indexer.spec_key(q)]
                mid.indexer.spec_key(q) == key implies mid.indexer.spec_chunk_extent(
                key,
            ).spec_contains(q) by {
                mid.indexer.lemma_point_in_own_chunk(q);
            }
        }
        let c = self.storage.borrow_mut(key);
        c.get_mut(p)
    }
}

} // verus!

verus! {

impl<T: Copy> ChunkMap<T> {
    /// Mutably borrow the chunk at `key`.  If the chunk doesn't exist,
    /// `create_chunk` is inserted first.  The map stays well formed as long
    /// as the borrower leaves a well-formed chunk of the same extent behind.
    pub fn get_mut_chunk_or_insert_with(&mut self, key: Point3i, create_chunk: Array3x1<T>) -> (r:
        &mut Array3x1<T>)
        requires
            old(self).wf(),
            old(self).indexer.spec_key_is_valid(key),
            old(self).indexer.spec_key_in_range(key),
            create_chunk.wf(),
            create_chunk.extent == old(self).indexer.spec_chunk_extent(key),
        ensures
            *r == if old(self).has_chunk(key) {
                old(self).chunk_at(key)
            } else {
                create_chunk
            },
            final(self).indexer == old(self).indexer,
            final(self).builder == old(self).builder,
            final(self).ambient_value == old(self).ambient_value,
            final(self).has_chunk(key),
            final(self).chunk_at(key) == *final(r),
            forall|k2: Point3i|
                k2 != key ==> (final(self).has_chunk(k2) == old(self).has_chunk(k2)),
            forall|k2: Point3i|
                k2 != key && old(self).has_chunk(k2) ==> final(self).chunk_at(k2) == old(
                    self,
                ).chunk_at(k2),
            ((*final(r)).wf() && (*final(r)).extent == old(self).indexer.spec_chunk_extent(key))
                ==> final(self).wf(),
    {
        let ghost m0 = *self;
        if !self.storage.contains_key(key) {
            self.storage.write(key, create_chunk);
            proof {
                lemma_map_wf_one_key(m0, *self, key);
            }
        }
        let ghost mid = *self;
        proof {
            self.storage.lemma_idx_of(key);
            assert forall|i: int| #![trigger mid.storage.keys@[i]]
                0 <= i < mid.storage.keys@.len() implies storage_entry_compat(
                mid.indexer.chunk_shape,
                mid.storage,
                i,
            ) by {
                assert(mid.entry_wf(i));
            }
        }
        self.storage.borrow_mut(key)
    }

    /// Mutably borrow the chunk at `key`.  If the chunk doesn't exist, a new
    /// all-ambient chunk is inserted first.
    pub fn get_mut_chunk_or_insert_ambient(&mut self, key: Point3i) -> (r: &mut Array3x1<T>)
        requires
            old(self).wf(),
            old(self).indexer.spec_key_is_valid(key),
            old(self).indexer.spec_key_in_range(key),
        ensures
            old(self).has_chunk(key) ==> *r == old(self).chunk_at(key),
            !old(self).has_chunk(key) ==> (*r).wf() && (*r).extent == old(
                self,
            ).indexer.spec_chunk_extent(key) && (forall|p: Point3i|
                (*r).extent.spec_contains(p) ==> (*r).value_at(p) == old(self).ambient_value),
            final(self).indexer == old(self).indexer,
            final(self).builder == old(self).builder,
            final(self).ambient_value == old(self).ambient_value,
            final(self).has_chunk(key),
            final(self).chunk_at(key) == *final(r),
            forall|k2: Point3i|
                k2 != key ==> (final(self).has_chunk(k2) == old(self).has_chunk(k2)),
            forall|k2: Point3i|
                k2 != key && old(self).has_chunk(k2) ==> final(self).chunk_at(k2) == old(
                    self,
                ).chunk_at(k2),
            ((*final(r)).wf() && (*final(r)).extent == old(self).indexer.spec_chunk_extent(key))
                ==> final(self).wf(),
    {
        let extent = self.indexer.extent_for_chunk_at_key(key);
        let ambient = self.builder.new_ambient(extent);
        self.get_mut_chunk_or_insert_with(key, ambient)
    }
}

} // verus!

verus! {

/// `c` is a copy of `d`: same extent and the same stored values.
pub open spec fn chunk_copy_matches<T: Copy>(c: Array3x1<T>, d: Array3x1<T>) -> bool {
    c.extent == d.extent && c.values@ == d.values@
}

/// An extent that takes the same value everywhere; the read-path stand-in
/// for a chunk that was never materialized.
#[derive(Clone, Copy, PartialEq, Eq, Structural)]
pub struct AmbientExtent<T> {
    pub value: T,
}

impl<T: Copy> AmbientExtent<T> {
    pub fn new(value: T) -> (r: Self)
        ensures
            r.value == value,
    {
        AmbientExtent { value }
    }

    pub fn get(&self) -> (r: T)
        ensures
            r == self.value,
    {
        self.value
    }

    /// Every point of `extent` paired with the ambient value, in row-major
    /// order.
    pub fn for_each(&self, extent: &Extent3i) -> (r: Vec<(Point3i, T)>)
        requires
            extent.wf(),
            extent.volume() <= usize::MAX,
        ensures
            r@.len() == extent.volume(),
            forall|j: int|
                0 <= j < r@.len() ==> #[trigger] r@[j] == (extent.point_of(j), self.value),
    {
        let ps = extent.points();
        let mut r: Vec<(Point3i, T)> = Vec::new();
        let n: usize = ps.len();
        let mut i: usize = 0;
        while i < n
            invariant
                0 <= i <= n,
                n == ps@.len(),
                ps@ == extent.points_seq(),
                r@.len() == i,
                forall|j: int| 0 <= j < i ==> #[trigger] r@[j] == (extent.point_of(j), self.value),
            decreases n - i,
        {
            r.push((ps[i], self.value));
            i = i + 1;
        }
        r
    }
}

/// What a bulk read hands out for one chunk position: a copy of the stored
/// chunk, or the chunk's extent with an ambient view when nothing is stored.
pub enum ChunkCopySrc<T> {
    Chunk(Array3x1<T>),
    Ambient(Extent3i, AmbientExtent<T>),
}

impl<T: Copy> ChunkMap<T> {
    /// For every chunk overlapping `extent`, in key order: the stored chunk,
    /// or the chunk's extent with an ambient view when it is vacant.
    pub fn visit_chunks(&self, extent: &Extent3i) -> (r: Vec<(Point3i, ChunkCopySrc<T>)>)
        requires
            self.wf(),
            extent.wf(),
            self.indexer.spec_key_counts_fit(*extent),
            self.indexer.spec_key_extent(*extent).volume() <= usize::MAX,
        ensures
            r@.len() == self.indexer.spec_chunk_keys(*extent).len() || (!extent.spec_nonempty()
                && r@.len() == 0),
            forall|j: int|
                0 <= j < r@.len() ==> (#[trigger] r@[j]).0 == self.indexer.spec_chunk_keys(
                    *extent,
                )[j],
            forall|j: int|
                0 <= j < r@.len() ==> match (#[trigger] r@[j]).1 {
                    ChunkCopySrc::Chunk(c) => self.has_chunk(r@[j].0) && chunk_copy_matches(
                        c,
                        self.chunk_at(r@[j].0),
                    ),
                    ChunkCopySrc::Ambient(e, a) => !self.has_chunk(r@[j].0) && e
                        == self.indexer.spec_chunk_extent(r@[j].0) && a.value
                        == self.ambient_value,
                },
    {
        let keys = self.indexer.chunk_keys_for_extent(extent);
        let mut r: Vec<(Point3i, ChunkCopySrc<T>)> = Vec::new();
        let n: usize = keys.len();
        let mut i: usize = 0;
        while i < n
            invariant
                0 <= i <= n,
                n == keys@.len(),
                self.wf(),
                extent.wf(),
                extent.spec_nonempty() ==> keys@ == self.indexer.spec_chunk_keys(*extent),
                !extent.spec_nonempty() ==> keys@.len() == 0,
                forall|j: int|
                    0 <= j < keys@.len() ==> self.indexer.spec_key_is_valid(#[trigger] keys@[j]),
                r@.len() == i,
                forall|j: int| 0 <= j < i ==> (#[trigger] r@[j]).0 == keys@[j],
                forall|j: int|
                    0 <= j < i ==> match (#[trigger] r@[j]).1 {
                        ChunkCopySrc::Chunk(c) => self.has_chunk(r@[j].0) && chunk_copy_matches(
                            c,
                            self.chunk_at(r@[j].0),
                        ),
                        ChunkCopySrc::Ambient(e, a) => !self.has_chunk(r@[j].0) && e
                            == self.indexer.spec_chunk_extent(r@[j].0) && a.value
                            == self.ambient_value,
                    },
            decreases n - i,
        {
            let key = keys[i];
            match self.storage.get(key) {
                Some(chunk) => {
                    proof {
                        self.lemma_stored_chunk(key);
                    }
                    let c = chunk.duplicate();
                    r.push((key, ChunkCopySrc::Chunk(c)));
                },
                None => {
                    let e = Extent3i {
                        minimum: key,
                        shape: self.indexer.chunk_shape(),
                    };
                    r.push((key, ChunkCopySrc::Ambient(e, AmbientExtent::new(self.ambient_value))));
                },
            }
            i = i + 1;
        }
        r
    }

    /// The stored chunks overlapping `extent`, each with its key.
    pub fn visit_occupied_chunks(&self, extent: &Extent3i) -> (r: Vec<(Point3i, Array3x1<T>)>)
        requires
            self.wf(),
            extent.wf(),
            self.indexer.spec_key_counts_fit(*extent),
            self.indexer.spec_key_extent(*extent).volume() <= usize::MAX,
        ensures
            forall|j: int|
                0 <= j < r@.len() ==> self.indexer.spec_chunk_keys(*extent).contains(
                    (#[trigger] r@[j]).0,
                ) && self.has_chunk(r@[j].0) && chunk_copy_matches(r@[j].1, self.chunk_at(r@[j].0)),
            forall|i: int|
                extent.spec_nonempty() && 0 <= i < self.indexer.spec_chunk_keys(*extent).len()
                    && self.has_chunk(#[trigger] self.indexer.spec_chunk_keys(*extent)[i])
                    ==> exists|j: int|
                    0 <= j < r@.len() && (#[trigger] r@[j]).0 == self.indexer.spec_chunk_keys(
                        *extent,
                    )[i],
    {
        let keys = self.indexer.chunk_keys_for_extent(extent);
        let mut r: Vec<(Point3i, Array3x1<T>)> = Vec::new();
        let n: usize = keys.len();
        let mut i: usize = 0;
        while i < n
            invariant
                0 <= i <= n,
                n == keys@.len(),
                self.wf(),
                extent.wf(),
                extent.spec_nonempty() ==> keys@ == self.indexer.spec_chunk_keys(*extent),
                !extent.spec_nonempty() ==> keys@.len() == 0,
                forall|j: int|
                    0 <= j < keys@.len() ==> self.indexer.spec_key_is_valid(#[trigger] keys@[j]),
                forall|j: int|
                    0 <= j < r@.len() ==> keys@.contains((#[trigger] r@[j]).0) && self.has_chunk(
                        r@[j].0,
                    ) && chunk_copy_matches(r@[j].1, self.chunk_at(r@[j].0)),
                forall|i2: int|
                    0 <= i2 < i && self.has_chunk(#[trigger] keys@[i2]) ==> exists|j: int|
                        0 <= j < r@.len() && (#[trigger] r@[j]).0 == keys@[i2],
            decreases n - i,
        {
            let key = keys[i];
            let ghost prev = r@;
            match self.storage.get(key) {
                Some(chunk) => {
                    proof {
                        self.lemma_stored_chunk(key);
                    }
                    let c = chunk.duplicate();
                    r.push((key, c));
                },
                None => {},
            }
            proof {
                assert forall|i2: int|
                    0 <= i2 < i + 1 && self.has_chunk(#[trigger] keys@[i2]) implies exists|j: int|
                    0 <= j < r@.len() && (#[trigger] r@[j]).0 == keys@[i2] by {
                    if i2 == i {
                        assert(r@[r@.len() - 1].0 == keys@[i2]);
                    } else {
                        let j0 = choose|j: int| 0 <= j < prev.len() && (#[trigger] prev[j]).0 == keys@[i2];
                        assert(r@[j0].0 == keys@[i2]);
                    }
                }
            }
            i = i + 1;
        }
        r
    }

    /// Every point of `extent` paired with the map's value there, chunk by
    /// chunk in row-major order within each chunk.
    pub fn for_each(&self, extent: &Extent3i) -> (r: Vec<(Point3i, T)>)
        requires
            self.wf(),
            extent.wf(),
            extent.volume() <= usize::MAX,
        ensures
            r@.len() == extent.volume() || (!extent.spec_nonempty() && r@.len() == 0),
            forall|j: int|
                0 <= j < r@.len() ==> #[trigger] r@[j] == (
                    extent.point_of(j),
                    self.value_at(extent.point_of(j)),
                ),
    {
        let ps = extent.points();
        let mut r: Vec<(Point3i, T)> = Vec::new();
        let n: usize = ps.len();
        let mut i: usize = 0;
        while i < n
            invariant
                0 <= i <= n,
                n == ps@.len(),
                ps@ == extent.points_seq(),
                self.wf(),
                r@.len() == i,
                forall|j: int|
                    0 <= j < i ==> #[trigger] r@[j] == (
                        extent.point_of(j),
                        self.value_at(extent.point_of(j)),
                    ),
            decreases n - i,
        {
            let p = ps[i];
            let v = self.get(p);
            r.push((p, v));
            i = i + 1;
        }
        r
    }
}

} // verus!

verus! {

/// What filling `e` with `v` does to a map: every point of `e` now reads
/// `v`, every other point is unchanged, and exactly the chunks that touch
/// `e` have been materialized.
pub open spec fn fill_effect<T: Copy>(pre: ChunkMap<T>, post: ChunkMap<T>, e: Extent3i, v: T) -> bool {
    &&& forall|p: Point3i|
        post.value_at(p) == if e.spec_contains(p) {
            v
        } else {
            pre.value_at(p)
        }
    &&& forall|k: Point3i|
        post.has_chunk(k) <==> (pre.has_chunk(k) || exists|p: Point3i|
            e.spec_contains(p) && pre.indexer.spec_key(p) == k)
}

impl<T: Copy> ChunkMap<T> {
    /// Fill all of `extent` with the same `value`, materializing every chunk
    /// it touches.
    pub fn fill_extent(&mut self, extent: &Extent3i, value: T)
        requires
            old(self).wf(),
            extent.wf(),
            extent.volume() <= usize::MAX,
            forall|p: Point3i|
                extent.spec_contains(p) ==> old(self).indexer.spec_point_in_range(p),
        ensures
            final(self).wf(),
            final(self).indexer == old(self).indexer,
            final(self).builder == old(self).builder,
            final(self).ambient_value == old(self).ambient_value,
            fill_effect(*old(self), *final(self), *extent, value),
    {
        let ps = extent.points();
        let n: usize = ps.len();
        let mut i: usize = 0;
        while i < n
            invariant
                0 <= i <= n,
                n == ps@.len(),
                ps@ == extent.points_seq(),
                extent.wf(),
                n == extent.volume(),
                self.wf(),
                self.indexer == old(self).indexer,
                self.builder == old(self).builder,
                self.ambient_value == old(self).ambient_value,
                forall|p: Point3i|
                    extent.spec_contains(p) ==> old(self).indexer.spec_point_in_range(p),
                forall|p: Point3i|
                    self.value_at(p) == if extent.spec_contains(p) && extent.index_of(p) < i {
                        value
                    } else {
                        old(self).value_at(p)
                    },
                forall|k: Point3i|
                    self.has_chunk(k) <==> (old(self).has_chunk(k) || exists|p: Point3i|
                        processed_before(*extent, i as int, p) && old(self).indexer.spec_key(p) == k),
            decreases n - i,
        {
            let p = ps[i];
            proof {
                extent.lemma_point_of_index(i as int);
            }
            let ghost mid = *self;
            self.set(p, value);
            proof {
                assert forall|q: Point3i|
                    #![trigger self.value_at(q)]
                    true implies self.value_at(q) == if extent.spec_contains(q)
                    && extent.index_of(q) < i + 1 {
                    value
                } else {
                    old(self).value_at(q)
                } by {
                    if q == p {
                    } else {
                        if extent.spec_contains(q) {
                            extent.lemma_index_of_point(q);
                            if extent.index_of(q) == extent.index_of(p) {
                                assert(extent.point_of(extent.index_of(q)) == q);
                            }
                        }
                    }
                }
                let key = mid.indexer.spec_key(p);
                assert forall|k: Point3i|
                    #![trigger self.has_chunk(k)]
                    true implies (self.has_chunk(k) <==> (old(self).has_chunk(k) || exists|q: Point3i|
                    processed_before(*extent, i + 1, q) && old(self).indexer.spec_key(q) == k)) by {
                    if self.has_chunk(k) {
                        if !old(self).has_chunk(k) {
                            if k == key {
                                assert(processed_before(*extent, i + 1, p) && old(
                                    self,
                                ).indexer.spec_key(p) == k);
                            } else {
                                assert(mid.has_chunk(k));
                                let q = choose|q: Point3i|
                                    processed_before(*extent, i as int, q) && old(
                                        self,
                                    ).indexer.spec_key(q) == k;
                                assert(processed_before(*extent, i + 1, q));
                            }
                        }
                    }
                    if !self.has_chunk(k) {
                        assert(!mid.has_chunk(k) && k != key);
                        if exists|q: Point3i|
                            processed_before(*extent, i + 1, q) && old(self).indexer.spec_key(q) == k {
                            let q = choose|q: Point3i|
                                processed_before(*extent, i + 1, q) && old(self).indexer.spec_key(q)
                                    == k;
                            if extent.index_of(q) < i {
                                assert(processed_before(*extent, i as int, q));
                            } else {
                                extent.lemma_index_of_point(q);
                                assert(extent.point_of(extent.index_of(q)) == q);
                                assert(q == p);
                            }
                        }
                    }
                }
            }
            i = i + 1;
        }
        proof {
            assert forall|p: Point3i| #![trigger extent.spec_contains(p)]
                extent.spec_contains(p) implies extent.index_of(p) < n by {
                extent.lemma_index_of_point(p);
            }
            assert forall|k: Point3i| #![trigger self.has_chunk(k)]
                self.has_chunk(k) <==> (old(self).has_chunk(k) || exists|p: Point3i|
                extent.spec_contains(p) && old(self).indexer.spec_key(p) == k) by {
                if self.has_chunk(k) && !old(self).has_chunk(k) {
                    let q = choose|q: Point3i|
                        processed_before(*extent, n as int, q) && old(self).indexer.spec_key(q) == k;
                    assert(extent.spec_contains(q) && old(self).indexer.spec_key(q) == k);
                }
                if exists|p: Point3i| extent.spec_contains(p) && old(self).indexer.spec_key(p)
                    == k {
                    let q = choose|q: Point3i|
                        extent.spec_contains(q) && old(self).indexer.spec_key(q) == k;
                    extent.lemma_index_of_point(q);
                    assert(processed_before(*extent, n as int, q) && old(self).indexer.spec_key(q)
                        == k);
                }
            }
        }
    }
}

/// `p` is one of the first `i` points of `e` in row-major order.
spec fn processed_before(e: Extent3i, i: int, p: Point3i) -> bool {
    e.spec_contains(p) && e.index_of(p) < i
}

} // verus!

verus! {

impl<T: Copy> ChunkMap<T> {
    /// Copy `src`'s values over every point of `extent`, materializing every
    /// chunk it touches.  The extent must lie inside `src`.
    pub fn write_extent(&mut self, extent: &Extent3i, src: &Array3x1<T>)
        requires
            old(self).wf(),
            extent.wf(),
            extent.volume() <= usize::MAX,
            src.wf(),
            forall|p: Point3i| extent.spec_contains(p) ==> src.extent.spec_contains(p),
            forall|p: Point3i|
                extent.spec_contains(p) ==> old(self).indexer.spec_point_in_range(p),
        ensures
            final(self).wf(),
            final(self).indexer == old(self).indexer,
            final(self).builder == old(self).builder,
            final(self).ambient_value == old(self).ambient_value,
            forall|p: Point3i|
                final(self).value_at(p) == if extent.spec_contains(p) {
                    src.value_at(p)
                } else {
                    old(self).value_at(p)
                },
            forall|k: Point3i|
                old(self).has_chunk(k) ==> final(self).has_chunk(k),
    {
        let ps = extent.points();
        let n: usize = ps.len();
        let mut i: usize = 0;
        while i < n
            invariant
                0 <= i <= n,
                n == ps@.len(),
                ps@ == extent.points_seq(),
                extent.wf(),
                n == extent.volume(),
                src.wf(),
                forall|p: Point3i| extent.spec_contains(p) ==> src.extent.spec_contains(p),
                self.wf(),
                self.indexer == old(self).indexer,
                self.builder == old(self).builder,
                self.ambient_value == old(self).ambient_value,
                forall|p: Point3i|
                    extent.spec_contains(p) ==> old(self).indexer.spec_point_in_range(p),
                forall|p: Point3i|
                    self.value_at(p) == if extent.spec_contains(p) && extent.index_of(p) < i {
                        src.value_at(p)
                    } else {
                        old(self).value_at(p)
                    },
                forall|k: Point3i| old(self).has_chunk(k) ==> self.has_chunk(k),
            decreases n - i,
        {
            let p = ps[i];
            proof {
                extent.lemma_point_of_index(i as int);
            }
            let v = src.get(p);
            self.set(p, v);
            proof {
                assert forall|q: Point3i|
                    #![trigger self.value_at(q)]
                    true implies self.value_at(q) == if extent.spec_contains(q)
                    && extent.index_of(q) < i + 1 {
                    src.value_at(q)
                } else {
                    old(self).value_at(q)
                } by {
                    if q != p && extent.spec_contains(q) {
                        extent.lemma_index_of_point(q);
                        if extent.index_of(q) == extent.index_of(p) {
                            assert(extent.point_of(extent.index_of(q)) == q);
                        }
                    }
                }
            }
            i = i + 1;
        }
        proof {
            assert forall|p: Point3i| #![trigger extent.spec_contains(p)]
                extent.spec_contains(p) implies extent.index_of(p) < n by {
                extent.lemma_index_of_point(p);
            }
        }
    }

    /// Materialize (create if absent, with the ambient value) every chunk
    /// overlapping `extent` and return their keys; no value changes.
    pub fn visit_mut_chunks(&mut self, extent: &Extent3i) -> (r: Vec<Point3i>)
        requires
            old(self).wf(),
            extent.wf(),
            old(self).indexer.spec_key_counts_fit(*extent),
            old(self).indexer.spec_key_extent(*extent).volume() <= usize::MAX,
            forall|p: Point3i|
                extent.spec_contains(p) ==> old(self).indexer.spec_point_in_range(p),
        ensures
            final(self).wf(),
            final(self).indexer == old(self).indexer,
            final(self).builder == old(self).builder,
            final(self).ambient_value == old(self).ambient_value,
            extent.spec_nonempty() ==> r@ == old(self).indexer.spec_chunk_keys(*extent),
            !extent.spec_nonempty() ==> r@.len() == 0,
            forall|p: Point3i| final(self).value_at(p) == old(self).value_at(p),
            forall|j: int| 0 <= j < r@.len() ==> final(self).has_chunk(#[trigger] r@[j]),
            forall|k: Point3i|
                final(self).has_chunk(k) <==> (old(self).has_chunk(k) || r@.contains(k)),
    {
        let keys = self.indexer.chunk_keys_for_extent(extent);
        let n: usize = keys.len();
        let mut i: usize = 0;
        while i < n
            invariant
                0 <= i <= n,
                n == keys@.len(),
                self.wf(),
                extent.wf(),
                self.indexer == old(self).indexer,
                self.builder == old(self).builder,
                self.ambient_value == old(self).ambient_value,
                forall|p: Point3i|
                    extent.spec_contains(p) ==> old(self).indexer.spec_point_in_range(p),
                forall|j: int|
                    0 <= j < keys@.len() ==> self.indexer.spec_key_is_valid(#[trigger] keys@[j]),
                forall|j: int|
                    0 <= j < keys@.len() ==> self.indexer.spec_chunk_overlaps(
                        #[trigger] keys@[j],
                        *extent,
                    ),
                forall|p: Point3i| self.value_at(p) == old(self).value_at(p),
                forall|j: int| 0 <= j < i ==> self.has_chunk(#[trigger] keys@[j]),
                forall|k: Point3i|
                    self.has_chunk(k) <==> (old(self).has_chunk(k) || exists|j: int|
                        0 <= j < i && keys@[j] == k),
            decreases n - i,
        {
            let key = keys[i];
            let ghost mid = *self;
            if !self.storage.contains_key(key) {
                proof {
                    let w = choose|p: Point3i|
                        self.indexer.spec_chunk_extent(key).spec_contains(p)
                            && extent.spec_contains(p);
                    self.indexer.lemma_chunk_contains_iff_key(key, w);
                    assert(self.indexer.spec_key(w) == key);
                }
                let chunk_extent = self.indexer.extent_for_chunk_at_key(key);
                let chunk = self.builder.new_ambient(chunk_extent);
                self.storage.write(key, chunk);
                proof {
                    lemma_map_wf_one_key(mid, *self, key);
                    assert forall|p: Point3i|
                        #![trigger self.value_at(p)]
                        true implies self.value_at(p) == mid.value_at(p) by {
                        self.indexer.lemma_point_in_own_chunk(p);
                    }
                }
            }
            proof {
                assert forall|k: Point3i|
                    #![trigger self.has_chunk(k)]
                    self.has_chunk(k) <==> (old(self).has_chunk(k) || exists|j: int|
                        0 <= j < i + 1 && keys@[j] == k) by {
                    if self.has_chunk(k) && !old(self).has_chunk(k) {
                        if mid.has_chunk(k) {
                            let j0 = choose|j: int| 0 <= j < i && keys@[j] == k;
                            assert(0 <= j0 < i + 1 && keys@[j0] == k);
                        } else {
                            assert(keys@[i as int] == k);
                        }
                    }
                    if !self.has_chunk(k) {
                        if exists|j: int| 0 <= j < i + 1 && keys@[j] == k {
                            let j0 = choose|j: int| 0 <= j < i + 1 && keys@[j] == k;
                            if j0 < i {
                                assert(exists|j: int| 0 <= j < i && keys@[j] == k);
                            } else {
                                assert(k == keys@[i as int]);
                            }
                        }
                    }
                }
            }
            i = i + 1;
        }
        proof {
            assert forall|k: Point3i|
                #![trigger self.has_chunk(k)]
                self.has_chunk(k) <==> (old(self).has_chunk(k) || keys@.contains(k)) by {}
        }
        keys
    }
}

/// Copy the values of `src` over the points of `extent` in `dst`.
pub fn copy_extent<T: Copy>(extent: &Extent3i, src: &Array3x1<T>, dst: &mut ChunkMap<T>)
    requires
        old(dst).wf(),
        extent.wf(),
        extent.volume() <= usize::MAX,
        src.wf(),
        forall|p: Point3i| extent.spec_contains(p) ==> src.extent.spec_contains(p),
        forall|p: Point3i| extent.spec_contains(p) ==> old(dst).indexer.spec_point_in_range(p),
    ensures
        final(dst).wf(),
        final(dst).indexer == old(dst).indexer,
        final(dst).builder == old(dst).builder,
        final(dst).ambient_value == old(dst).ambient_value,
        forall|p: Point3i|
            final(dst).value_at(p) == if extent.spec_contains(p) {
                src.value_at(p)
            } else {
                old(dst).value_at(p)
            },
{
    dst.write_extent(extent, src);
}

} // verus!

verus! {

impl<T: Copy> ChunkMap<T> {
    /// The keys of the stored chunks overlapping `extent`; borrow each with
    /// `get_mut_chunk_or_insert_ambient` to edit them in place.
    pub fn visit_occupied_mut_chunks(&mut self, extent: &Extent3i) -> (r: Vec<Point3i>)
        requires
            old(self).wf(),
            extent.wf(),
            old(self).indexer.spec_key_counts_fit(*extent),
            old(self).indexer.spec_key_extent(*extent).volume() <= usize::MAX,
        ensures
            *final(self) == *old(self),
            forall|j: int|
                0 <= j < r@.len() ==> old(self).indexer.spec_chunk_keys(*extent).contains(
                    #[trigger] r@[j],
                ) && old(self).has_chunk(r@[j]),
            forall|i: int|
                extent.spec_nonempty() && 0 <= i < old(self).indexer.spec_chunk_keys(
                    *extent,
                ).len() && old(self).has_chunk(
                    #[trigger] old(self).indexer.spec_chunk_keys(*extent)[i],
                ) ==> r@.contains(old(self).indexer.spec_chunk_keys(*extent)[i]),
    {
        let keys = self.indexer.chunk_keys_for_extent(extent);
        let n: usize = keys.len();
        let mut r: Vec<Point3i> = Vec::new();
        let mut i: usize = 0;
        while i < n
            invariant
                0 <= i <= n,
                n == keys@.len(),
                self.wf(),
                extent.wf(),
                *self == *old(self),
                extent.spec_nonempty() ==> keys@ == self.indexer.spec_chunk_keys(*extent),
                !extent.spec_nonempty() ==> keys@.len() == 0,
                forall|j: int| 0 <= j < r@.len() ==> keys@.contains(#[trigger] r@[j]) && self.has_chunk(r@[j]),
                forall|i2: int|
                    0 <= i2 < i && self.has_chunk(#[trigger] keys@[i2]) ==> r@.contains(keys@[i2]),
            decreases n - i,
        {
            let key = keys[i];
            let ghost prev = r@;
            if self.storage.contains_key(key) {
                r.push(key);
            }
            proof {
                assert forall|i2: int|
                    0 <= i2 < i + 1 && self.has_chunk(#[trigger] keys@[i2]) implies r@.contains(
                    keys@[i2],
                ) by {
                    if i2 == i {
                        assert(r@[r@.len() - 1] == keys@[i2]);
                    } else {
                        let j0 = choose|j: int| 0 <= j < prev.len() && prev[j] == keys@[i2];
                        assert(r@[j0] == keys@[i2]);
                    }
                }
            }
            i = i + 1;
        }
        r
    }

    /// The smallest extent that bounds all stored chunks.  An empty map
    /// yields the degenerate empty extent at the origin.
    pub fn bounding_extent(&self) -> (r: Extent3i)
        requires
            self.wf(),
            forall|i: int, j: int|
                0 <= i < self.storage.keys@.len() && 0 <= j < self.storage.keys@.len() ==> {
                    &&& (#[trigger] self.storage.keys@[j]).x + self.indexer.chunk_shape.x - (
                    #[trigger] self.storage.keys@[i]).x <= i32::MAX
                    &&& self.storage.keys@[j].y + self.indexer.chunk_shape.y
                        - self.storage.keys@[i].y <= i32::MAX
                    &&& self.storage.keys@[j].z + self.indexer.chunk_shape.z
                        - self.storage.keys@[i].z <= i32::MAX
                },
        ensures
            self.storage.keys@.len() == 0 ==> r == (Extent3i {
                minimum: Point3i { x: 0, y: 0, z: 0 },
                shape: Point3i { x: 0, y: 0, z: 0 },
            }),
            self.storage.keys@.len() > 0 ==> {
                &&& r.wf()
                &&& forall|i: int|
                    0 <= i < self.storage.keys@.len() ==> {
                        &&& r.minimum.x <= (#[trigger] self.storage.keys@[i]).x
                        &&& r.minimum.y <= self.storage.keys@[i].y
                        &&& r.minimum.z <= self.storage.keys@[i].z
                        &&& self.storage.keys@[i].x + self.indexer.chunk_shape.x <= r.minimum.x
                            + r.shape.x
                        &&& self.storage.keys@[i].y + self.indexer.chunk_shape.y <= r.minimum.y
                            + r.shape.y
                        &&& self.storage.keys@[i].z + self.indexer.chunk_shape.z <= r.minimum.z
                            + r.shape.z
                    }
                &&& exists|i: int|
                    0 <= i < self.storage.keys@.len() && (#[trigger] self.storage.keys@[i]).x
                        == r.minimum.x
                &&& exists|i: int|
                    0 <= i < self.storage.keys@.len() && (#[trigger] self.storage.keys@[i]).y
                        == r.minimum.y
                &&& exists|i: int|
                    0 <= i < self.storage.keys@.len() && (#[trigger] self.storage.keys@[i]).z
                        == r.minimum.z
                &&& exists|i: int|
                    0 <= i < self.storage.keys@.len() && (#[trigger] self.storage.keys@[i]).x
                        + self.indexer.chunk_shape.x == r.minimum.x + r.shape.x
                &&& exists|i: int|
                    0 <= i < self.storage.keys@.len() && (#[trigger] self.storage.keys@[i]).y
                        + self.indexer.chunk_shape.y == r.minimum.y + r.shape.y
                &&& exists|i: int|
                    0 <= i < self.storage.keys@.len() && (#[trigger] self.storage.keys@[i]).z
                        + self.indexer.chunk_shape.z == r.minimum.z + r.shape.z
            },
    {
        let n: usize = self.storage.keys.len();
        if n == 0 {
            return Extent3i {
                minimum: Point3i { x: 0, y: 0, z: 0 },
                shape: Point3i { x: 0, y: 0, z: 0 },
            };
        }
        let k0 = self.storage.keys[0];
        let mut minp: Point3i = k0;
        let mut maxp: Point3i = k0;
        let mut i: usize = 1;
        while i < n
            invariant
                1 <= i <= n,
                n == self.storage.keys@.len(),
                forall|j: int|
                    0 <= j < i ==> {
                        &&& minp.x <= (#[trigger] self.storage.keys@[j]).x
                        &&& minp.y <= self.storage.keys@[j].y
                        &&& minp.z <= self.storage.keys@[j].z
                        &&& self.storage.keys@[j].x <= maxp.x
                        &&& self.storage.keys@[j].y <= maxp.y
                        &&& self.storage.keys@[j].z <= maxp.z
                    },
                exists|j: int|
                    0 <= j < i && (#[trigger] self.storage.keys@[j]).x == minp.x,
                exists|j: int|
                    0 <= j < i && (#[trigger] self.storage.keys@[j]).y == minp.y,
                exists|j: int|
                    0 <= j < i && (#[trigger] self.storage.keys@[j]).z == minp.z,
                exists|j: int|
                    0 <= j < i && (#[trigger] self.storage.keys@[j]).x == maxp.x,
                exists|j: int|
                    0 <= j < i && (#[trigger] self.storage.keys@[j]).y == maxp.y,
                exists|j: int|
                    0 <= j < i && (#[trigger] self.storage.keys@[j]).z == maxp.z,
            decreases n - i,
        {
            let k = self.storage.keys[i];
            if k.x < minp.x {
                minp.x = k.x;
            }
            if k.y < minp.y {
                minp.y = k.y;
            }
            if k.z < minp.z {
                minp.z = k.z;
            }
            if k.x > maxp.x {
                maxp.x = k.x;
            }
            if k.y > maxp.y {
                maxp.y = k.y;
            }
            if k.z > maxp.z {
                maxp.z = k.z;
            }
            i = i + 1;
        }
        proof {
            self.indexer.lemma_shape_positive();
            let jx = choose|j: int| 0 <= j < n && (#[trigger] self.storage.keys@[j]).x == maxp.x;
            assert(self.entry_wf(jx));
            let jy = choose|j: int| 0 <= j < n && (#[trigger] self.storage.keys@[j]).y == maxp.y;
            assert(self.entry_wf(jy));
            let jz = choose|j: int| 0 <= j < n && (#[trigger] self.storage.keys@[j]).z == maxp.z;
            assert(self.entry_wf(jz));
            let ix = choose|j: int| 0 <= j < n && (#[trigger] self.storage.keys@[j]).x == minp.x;
            let iy = choose|j: int| 0 <= j < n && (#[trigger] self.storage.keys@[j]).y == minp.y;
            let iz = choose|j: int| 0 <= j < n && (#[trigger] self.storage.keys@[j]).z == minp.z;
            assert(self.storage.keys@[jx].x + self.indexer.chunk_shape.x
                - self.storage.keys@[ix].x <= i32::MAX);
            assert(self.storage.keys@[jy].y + self.indexer.chunk_shape.y
                - self.storage.keys@[iy].y <= i32::MAX);
            assert(self.storage.keys@[jz].z + self.indexer.chunk_shape.z
                - self.storage.keys@[iz].z <= i32::MAX);
        }
        let shape = Point3i {
            x: (maxp.x - minp.x) + self.indexer.chunk_shape.x,
            y: (maxp.y - minp.y) + self.indexer.chunk_shape.y,
            z: (maxp.z - minp.z) + self.indexer.chunk_shape.z,
        };
        Extent3i { minimum: minp, shape }
    }
}

} // verus!

verus! {

/// Law: a map with no stored chunks reads the ambient value at every point.
pub proof fn lemma_fresh_map_reads_ambient<T: Copy>(m: ChunkMap<T>, p: Point3i)
    requires
        m.wf(),
        m.storage.keys@.len() == 0,
    ensures
        m.value_at(p) == m.ambient_value,
{
    if m.has_chunk(m.indexer.spec_key(p)) {
        let i = choose|i: int|
            0 <= i < m.storage.keys@.len() && m.storage.keys@[i] == m.indexer.spec_key(p);
    }
}

/// Law: filling the same extent with the same value twice leaves the map
/// state identical to filling it once — the same chunks are stored, every
/// stored chunk holds the same values, and every point reads the same.
pub proof fn lemma_fill_extent_idempotent<T: Copy>(
    m0: ChunkMap<T>,
    m1: ChunkMap<T>,
    m2: ChunkMap<T>,
    e: Extent3i,
    v: T,
)
    requires
        m0.wf(),
        m1.wf(),
        m2.wf(),
        m1.indexer == m0.indexer,
        m2.indexer == m1.indexer,
        m1.ambient_value == m0.ambient_value,
        m2.ambient_value == m1.ambient_value,
        fill_effect(m0, m1, e, v),
        fill_effect(m1, m2, e, v),
    ensures
        forall|k: Point3i| m2.has_chunk(k) == m1.has_chunk(k),
        forall|p: Point3i| m2.value_at(p) == m1.value_at(p),
        forall|k: Point3i|
            m1.has_chunk(k) ==> chunk_copy_matches(m2.chunk_at(k), m1.chunk_at(k)),
{
    assert forall|k: Point3i| m2.has_chunk(k) == m1.has_chunk(k) by {
        if m2.has_chunk(k) && !m1.has_chunk(k) {
            let p = choose|p: Point3i| e.spec_contains(p) && m1.indexer.spec_key(p) == k;
            assert(m1.has_chunk(k));
        }
    }
    assert forall|p: Point3i| m2.value_at(p) == m1.value_at(p) by {}
    assert forall|k: Point3i|
        m1.has_chunk(k) implies chunk_copy_matches(m2.chunk_at(k), m1.chunk_at(k)) by {
        m1.lemma_stored_chunk(k);
        m2.lemma_stored_chunk(k);
        let ce = m1.indexer.spec_chunk_extent(k);
        assert forall|idx: int|
            0 <= idx < m1.chunk_at(k).values@.len() implies m2.chunk_at(k).values@[idx] == m1.chunk_at(
            k,
        ).values@[idx] by {
            ce.lemma_point_of_index(idx);
            let q = ce.point_of(idx);
            m1.indexer.lemma_chunk_contains_iff_key(k, q);
            assert(m1.indexer.spec_key(q) == k);
            assert(m1.chunk_at(k).value_at(q) == m1.value_at(q));
            assert(m2.chunk_at(k).value_at(q) == m2.value_at(q));
        }
        assert(m2.chunk_at(k).values@ =~= m1.chunk_at(k).values@);
    }
}

} // verus!

verus! {

impl<T: Copy> ChunkMap<T> {
    /// For every chunk overlapping `extent`: the part of `extent` it covers,
    /// with either a copy of the stored chunk or an ambient view to copy
    /// from.
    #[verifier::rlimit(60)]
    pub fn read_extent(&self, extent: &Extent3i) -> (r: Vec<(Extent3i, ChunkCopySrc<T>)>)
        requires
            self.wf(),
            extent.wf(),
            self.indexer.spec_key_counts_fit(*extent),
            self.indexer.spec_key_extent(*extent).volume() <= usize::MAX,
        ensures
            r@.len() == self.indexer.spec_chunk_keys(*extent).len() || (!extent.spec_nonempty()
                && r@.len() == 0),
            forall|j: int|
                0 <= j < r@.len() ==> {
                    let key = self.indexer.spec_chunk_keys(*extent)[j];
                    &&& ((#[trigger] r@[j]).0.wf())
                    &&& (forall|p: Point3i|
                        r@[j].0.spec_contains(p) <==> (extent.spec_contains(p)
                            && self.indexer.spec_chunk_extent(key).spec_contains(p)))
                    &&& match r@[j].1 {
                        ChunkCopySrc::Chunk(c) => self.has_chunk(key) && chunk_copy_matches(
                            c,
                            self.chunk_at(key),
                        ),
                        ChunkCopySrc::Ambient(e, a) => !self.has_chunk(key) && e
                            == self.indexer.spec_chunk_extent(key) && a.value
                            == self.ambient_value,
                    }
                },
    {
        let keys = self.indexer.chunk_keys_for_extent(extent);
        let mut r: Vec<(Extent3i, ChunkCopySrc<T>)> = Vec::new();
        let n: usize = keys.len();
        let mut i: usize = 0;
        while i < n
            invariant
                0 <= i <= n,
                n == keys@.len(),
                self.wf(),
                extent.wf(),
                extent.spec_nonempty() ==> keys@ == self.indexer.spec_chunk_keys(*extent),
                !extent.spec_nonempty() ==> keys@.len() == 0,
                forall|j: int|
                    0 <= j < keys@.len() ==> self.indexer.spec_key_is_valid(#[trigger] keys@[j]),
                r@.len() == i,
                forall|j: int|
                    0 <= j < i ==> {
                        let key = keys@[j];
                        &&& ((#[trigger] r@[j]).0.wf())
                        &&& (forall|p: Point3i|
                            r@[j].0.spec_contains(p) <==> (extent.spec_contains(p)
                                && self.indexer.spec_chunk_extent(key).spec_contains(p)))
                        &&& match r@[j].1 {
                            ChunkCopySrc::Chunk(c) => self.has_chunk(key) && chunk_copy_matches(
                                c,
                                self.chunk_at(key),
                            ),
                            ChunkCopySrc::Ambient(e, a) => !self.has_chunk(key) && e
                                == self.indexer.spec_chunk_extent(key) && a.value
                                == self.ambient_value,
                        }
                    },
            decreases n - i,
        {
            let key = keys[i];
            let chunk_extent = Extent3i { minimum: key, shape: self.indexer.chunk_shape };
            let intersection = clip_extent_to(extent, &chunk_extent);
            match self.storage.get(key) {
                Some(chunk) => {
                    proof {
                        self.lemma_stored_chunk(key);
                    }
                    let c = chunk.duplicate();
                    r.push((intersection, ChunkCopySrc::Chunk(c)));
                },
                None => {
                    r.push(
                        (
                            intersection,
                            ChunkCopySrc::Ambient(
                                chunk_extent,
                                AmbientExtent::new(self.ambient_value),
                            ),
                        ),
                    );
                },
            }
            i = i + 1;
        }
        r
    }
}

/// The part of `a` lying inside `b`, where `b` need not be known
/// well-formed: the result still contains exactly the shared points.
fn clip_extent_to(a: &Extent3i, b: &Extent3i) -> (r: Extent3i)
    requires
        a.wf(),
    ensures
        r.wf(),
        forall|p: Point3i| r.spec_contains(p) <==> (a.spec_contains(p) && b.spec_contains(p)),
{
    let lox: i32 = if a.minimum.x >= b.minimum.x {
        a.minimum.x
    } else {
        b.minimum.x
    };
    let loy: i32 = if a.minimum.y >= b.minimum.y {
        a.minimum.y
    } else {
        b.minimum.y
    };
    let loz: i32 = if a.minimum.z >= b.minimum.z {
        a.minimum.z
    } else {
        b.minimum.z
    };
    let ae_x: i32 = a.minimum.x + a.shape.x;
    let ae_y: i32 = a.minimum.y + a.shape.y;
    let ae_z: i32 = a.minimum.z + a.shape.z;
    let shx: i32 = if within_axis(lox, ae_x, b.minimum.x as i64 + b.shape.x as i64) {
        clip_len(lox, ae_x, b.minimum.x as i64 + b.shape.x as i64)
    } else {
        0
    };
    let shy: i32 = if within_axis(loy, ae_y, b.minimum.y as i64 + b.shape.y as i64) {
        clip_len(loy, ae_y, b.minimum.y as i64 + b.shape.y as i64)
    } else {
        0
    };
    let shz: i32 = if within_axis(loz, ae_z, b.minimum.z as i64 + b.shape.z as i64) {
        clip_len(loz, ae_z, b.minimum.z as i64 + b.shape.z as i64)
    } else {
        0
    };
    Extent3i { minimum: Point3i { x: lox, y: loy, z: loz }, shape: Point3i { x: shx, y: shy, z: shz } }
}

/// True when the clipped axis `[lo, min(ae, bend))` is nonempty.
fn within_axis(lo: i32, ae: i32, bend: i64) -> (r: bool)
    ensures
        r == ((lo as int) < (if (ae as int) <= bend as int {
            ae as int
        } else {
            bend as int
        })),
{
    let e: i64 = if (ae as i64) <= bend {
        ae as i64
    } else {
        bend
    };
    (lo as i64) < e
}

/// The length of the clipped axis `[lo, min(ae, bend))`, which must be
/// nonempty and fits `i32` because `[lo, ae)` does.
fn clip_len(lo: i32, ae: i32, bend: i64) -> (r: i32)
    requires
        lo <= ae,
        ae - lo <= i32::MAX,
        (lo as int) < (if (ae as int) <= bend as int {
            ae as int
        } else {
            bend as int
        }),
    ensures
        r == (if (ae as int) <= bend as int {
            ae as int
        } else {
            bend as int
        }) - lo,
{
    let e: i64 = if (ae as i64) <= bend {
        ae as i64
    } else {
        bend
    };
    (e - (lo as i64)) as i32
}

} // verus!

verus! {

impl<T: Copy> ChunkMap<T> {
    /// Mutably borrow the chunk at `key`, if it is stored.  The map stays
    /// well formed as long as the borrower leaves a well-formed chunk of the
    /// same extent behind.
    pub fn get_mut_chunk(&mut self, key: Point3i) -> (r: Option<&mut Array3x1<T>>)
        requires
            old(self).wf(),
            old(self).indexer.spec_key_is_valid(key),
        ensures
            old(self).has_chunk(key) <==> (r is Some),
            !old(self).has_chunk(key) ==> *final(self) == *old(self),
            r matches Some(c) ==> {
                &&& *c == old(self).chunk_at(key)
                &&& final(self).indexer == old(self).indexer
                &&& final(self).builder == old(self).builder
                &&& final(self).ambient_value == old(self).ambient_value
                &&& final(self).has_chunk(key)
                &&& final(self).chunk_at(key) == *final(c)
                &&& (forall|k2: Point3i|
                    k2 != key ==> (final(self).has_chunk(k2) == old(self).has_chunk(k2)))
                &&& (forall|k2: Point3i|
                    k2 != key && old(self).has_chunk(k2) ==> final(self).chunk_at(k2) == old(
                        self,
                    ).chunk_at(k2))
                &&& (((*final(c)).wf() && (*final(c)).extent == old(
                    self,
                ).indexer.spec_chunk_extent(key)) ==> final(self).wf())
            },
    {
        let ghost pre = *self;
        if self.storage.contains_key(key) {
            proof {
                self.storage.lemma_idx_of(key);
                assert forall|i: int| #![trigger pre.storage.keys@[i]]
                    0 <= i < pre.storage.keys@.len() implies storage_entry_compat(
                    pre.indexer.chunk_shape,
                    pre.storage,
                    i,
                ) by {
                    assert(pre.entry_wf(i));
                }
            }
            Some(self.storage.borrow_mut(key))
        } else {
            None
        }
    }
}

} // verus!
