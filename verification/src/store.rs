//! The three shared collections of the streaming engine: the cache of
//! generated chunks, the set of chunks that are currently represented, and the
//! queue of coordinates that await generation.

use vstd::prelude::*;
use crate::chunk::{Chunk, ChunkCoordinate};

verus! {

/// The cache of generated chunks, keyed by chunk coordinate. A chunk that has
/// entered the cache stays in it unchanged.
///
/// The chunks are kept in a `HashMap` of `bevy::utils`, which the verifier
/// does not look into: what the map holds is `generated_chunks`, and the
/// private functions named `map_..` state what the map's methods do to it.
#[verifier::external_body]
pub struct GeneratedChunks {
    map: bevy::utils::HashMap<ChunkCoordinate, Chunk>,
}

/// The chunks that a cache holds, by coordinate.
pub uninterp spec fn generated_chunks(store: GeneratedChunks) -> Map<ChunkCoordinate, Chunk>;

/// If a chunk position is in this set, then it is loaded.
///
/// The positions are kept in a `HashSet` of `bevy::utils`, which the verifier
/// does not look into: what the set holds is `loaded_chunks`, and the private
/// functions named `set_..` state what the set's methods do to it.
#[verifier::external_body]
pub struct LoadedChunks {
    chunks: bevy::utils::HashSet<ChunkCoordinate>,
}

/// The coordinates that a set of loaded chunks holds.
pub uninterp spec fn loaded_chunks(loaded: LoadedChunks) -> Set<ChunkCoordinate>;

/// `SegQueue` of `crossbeam::queue`, carried as an opaque value.
#[verifier::external_type_specification]
#[verifier::external_body]
#[verifier::reject_recursive_types(T)]
pub struct ExSegQueue<T>(crossbeam::queue::SegQueue<T>);

/// The coordinates that wait in a queue, the one that leaves next first.
pub uninterp spec fn queued_chunks(queue: crossbeam::queue::SegQueue<ChunkCoordinate>) -> Seq<ChunkCoordinate>;

/// The queue of chunk coordinates that await generation.
pub struct ChunkQueue(pub crossbeam::queue::SegQueue<ChunkCoordinate>);

impl View for GeneratedChunks {
    type V = Map<ChunkCoordinate, Chunk>;

    open spec fn view(&self) -> Map<ChunkCoordinate, Chunk> {
        generated_chunks(*self)
    }
}

impl View for LoadedChunks {
    type V = Set<ChunkCoordinate>;

    open spec fn view(&self) -> Set<ChunkCoordinate> {
        loaded_chunks(*self)
    }
}

impl View for ChunkQueue {
    type V = Seq<ChunkCoordinate>;

    open spec fn view(&self) -> Seq<ChunkCoordinate> {
        queued_chunks(self.0)
    }
}

impl GeneratedChunks {
    /// `HashMap::default` of `bevy::utils`, which makes an empty map.
    #[verifier::external_body]
    fn map_default() -> (store: Self)
        ensures
            generated_chunks(store).dom() == Set::<ChunkCoordinate>::empty(),
    {
        GeneratedChunks { map: bevy::utils::HashMap::default() }
    }

    /// `HashMap::contains_key` of `bevy::utils`: whether the map holds a
    /// value for the key.
    #[verifier::external_body]
    fn map_contains_key(&self, pos: &ChunkCoordinate) -> (present: bool)
        ensures
            present == generated_chunks(*self).dom().contains(*pos),
    {
        self.map.contains_key(pos)
    }

    /// `HashMap::get` of `bevy::utils`: the value that the map holds for the
    /// key, if it holds one.
    #[verifier::external_body]
    fn map_get(&self, pos: &ChunkCoordinate) -> (chunk: Option<&Chunk>)
        ensures
            match chunk {
                Some(chunk) => generated_chunks(*self).dom().contains(*pos) && *chunk
                    == generated_chunks(*self)[*pos],
                None => !generated_chunks(*self).dom().contains(*pos),
            },
    {
        self.map.get(pos)
    }

    /// `HashMap::insert` of `bevy::utils`: the map then holds the value for
    /// the key, and the value that it held for the key before is returned.
    #[verifier::external_body]
    fn map_insert(&mut self, pos: ChunkCoordinate, chunk: Chunk) -> (previous: Option<Chunk>)
        ensures
            generated_chunks(*final(self)) == generated_chunks(*old(self)).insert(pos, chunk),
            previous == if generated_chunks(*old(self)).dom().contains(pos) {
                Some(generated_chunks(*old(self))[pos])
            } else {
                None
            },
    {
        self.map.insert(pos, chunk)
    }

    /// `HashMap::keys` of `bevy::utils`: every key of the map once, in an
    /// order that is not specified.
    #[verifier::external_body]
    fn map_keys(&self) -> (keys: Vec<ChunkCoordinate>)
        ensures
            keys@.no_duplicates(),
            keys@.to_set() == generated_chunks(*self).dom(),
    {
        self.map.keys().copied().collect()
    }

    /// An empty cache.
    pub fn new() -> (store: Self)
        ensures
            store@ == Map::<ChunkCoordinate, Chunk>::empty(),
    {
        Self::map_default()
    }

    /// Whether the chunk at `pos` has been generated.
    pub fn contains(&self, pos: ChunkCoordinate) -> (present: bool)
        ensures
            present == self@.dom().contains(pos),
    {
        self.map_contains_key(&pos)
    }

    /// The chunk at `pos`, if it has been generated.
    pub fn get(&self, pos: ChunkCoordinate) -> (chunk: Option<&Chunk>)
        ensures
            match chunk {
                Some(chunk) => self@.dom().contains(pos) && *chunk == self@[pos],
                None => !self@.dom().contains(pos),
            },
    {
        self.map_get(&pos)
    }

    /// Stores `chunk` at `pos` unless a chunk is stored there already, and
    /// says whether it did. A stored chunk is never replaced.
    pub fn insert(&mut self, pos: ChunkCoordinate, chunk: Chunk) -> (inserted: bool)
        ensures
            inserted == !old(self)@.dom().contains(pos),
            final(self)@ == if inserted {
                old(self)@.insert(pos, chunk)
            } else {
                old(self)@
            },
    {
        if self.map_contains_key(&pos) {
            false
        } else {
            let _ = self.map_insert(pos, chunk);
            true
        }
    }

    /// The coordinates of all generated chunks, each once, in no particular
    /// order.
    pub fn coordinates(&self) -> (coordinates: Vec<ChunkCoordinate>)
        ensures
            coordinates@.no_duplicates(),
            coordinates@.to_set() == self@.dom(),
    {
        self.map_keys()
    }
}

impl LoadedChunks {
    /// `HashSet::default` of `bevy::utils`, which makes an empty set.
    #[verifier::external_body]
    fn set_default() -> (loaded: Self)
        ensures
            loaded_chunks(loaded) == Set::<ChunkCoordinate>::empty(),
    {
        LoadedChunks { chunks: bevy::utils::HashSet::default() }
    }

    /// `HashSet::contains` of `bevy::utils`: whether the set holds the value.
    #[verifier::external_body]
    fn set_contains(&self, pos: &ChunkCoordinate) -> (present: bool)
        ensures
            present == loaded_chunks(*self).contains(*pos),
    {
        self.chunks.contains(pos)
    }

    /// `HashSet::insert` of `bevy::utils`: the set then holds the value; the
    /// result says whether it was absent before.
    #[verifier::external_body]
    fn set_insert(&mut self, pos: ChunkCoordinate) -> (added: bool)
        ensures
            loaded_chunks(*final(self)) == loaded_chunks(*old(self)).insert(pos),
            added == !loaded_chunks(*old(self)).contains(pos),
    {
        self.chunks.insert(pos)
    }

    /// `HashSet::remove` of `bevy::utils`: the set then holds the value no
    /// more; the result says whether it was present before.
    #[verifier::external_body]
    fn set_remove(&mut self, pos: &ChunkCoordinate) -> (removed: bool)
        ensures
            loaded_chunks(*final(self)) == loaded_chunks(*old(self)).remove(*pos),
            removed == loaded_chunks(*old(self)).contains(*pos),
    {
        self.chunks.remove(pos)
    }

    /// An empty set.
    pub fn new() -> (loaded: Self)
        ensures
            loaded@ == Set::<ChunkCoordinate>::empty(),
    {
        Self::set_default()
    }

    /// Whether the chunk at `pos` is loaded.
    pub fn contains(&self, pos: ChunkCoordinate) -> (present: bool)
        ensures
            present == self@.contains(pos),
    {
        self.set_contains(&pos)
    }

    /// Marks the chunk at `pos` as loaded; says whether it was not before.
    pub fn insert(&mut self, pos: ChunkCoordinate) -> (added: bool)
        ensures
            final(self)@ == old(self)@.insert(pos),
            added == !old(self)@.contains(pos),
    {
        self.set_insert(pos)
    }

    /// Marks the chunk at `pos` as not loaded; says whether it was before.
    pub fn remove(&mut self, pos: ChunkCoordinate) -> (removed: bool)
        ensures
            final(self)@ == old(self)@.remove(pos),
            removed == old(self)@.contains(pos),
    {
        self.set_remove(&pos)
    }
}

/// `SegQueue::new` of `crossbeam::queue`, which makes an empty queue.
#[verifier::external_body]
fn seg_queue_new() -> (queue: crossbeam::queue::SegQueue<ChunkCoordinate>)
    ensures
        queued_chunks(queue) == Seq::<ChunkCoordinate>::empty(),
{
    crossbeam::queue::SegQueue::new()
}

/// `SegQueue::push` of `crossbeam::queue`, which puts the value at the tail.
/// The queue is borrowed exclusively, so nothing else touches it meanwhile.
#[verifier::external_body]
fn seg_queue_push(queue: &mut crossbeam::queue::SegQueue<ChunkCoordinate>, pos: ChunkCoordinate)
    ensures
        queued_chunks(*final(queue)) == queued_chunks(*old(queue)).push(pos),
{
    queue.push(pos)
}

/// `SegQueue::pop` of `crossbeam::queue`, which takes the value at the head,
/// or returns `None` from an empty queue. The queue is borrowed exclusively,
/// so nothing else touches it meanwhile.
#[verifier::external_body]
fn seg_queue_pop(queue: &mut crossbeam::queue::SegQueue<ChunkCoordinate>) -> (pos: Option<ChunkCoordinate>)
    ensures
        match pos {
            Some(pos) => queued_chunks(*old(queue)).len() > 0 && pos == queued_chunks(
                *old(queue),
            )[0] && queued_chunks(*final(queue)) == queued_chunks(*old(queue)).drop_first(),
            None => queued_chunks(*old(queue)).len() == 0 && queued_chunks(*final(queue))
                == queued_chunks(*old(queue)),
        },
{
    queue.pop()
}

impl ChunkQueue {
    /// An empty queue.
    pub fn new() -> (queue: Self)
        ensures
            queue@ == Seq::<ChunkCoordinate>::empty(),
    {
        ChunkQueue(seg_queue_new())
    }

    /// Puts `pos` at the tail of the queue.
    pub fn push(&mut self, pos: ChunkCoordinate)
        ensures
            final(self)@ == old(self)@.push(pos),
    {
        seg_queue_push(&mut self.0, pos)
    }

    /// Takes the coordinate at the head of the queue, if there is one.
    pub fn pop(&mut self) -> (pos: Option<ChunkCoordinate>)
        ensures
            match pos {
                Some(pos) => old(self)@.len() > 0 && pos == old(self)@[0] && final(self)@ == old(
                    self,
                )@.drop_first(),
                None => old(self)@.len() == 0 && final(self)@ == old(self)@,
            },
    {
        seg_queue_pop(&mut self.0)
    }
}

} // verus!
