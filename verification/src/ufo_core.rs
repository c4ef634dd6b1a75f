//! The bookkeeping of the orchestrator: which objects live, which ranges of
//! addresses they own, which chunks are resident and how many bytes they
//! take.
//!
//! The functions here decide; the caller does the kernel's part. Each
//! function is one step under the lock of the state.

use vstd::prelude::*;
use std::collections::HashMap;
use std::collections::VecDeque;
use crate::chunk::UfoChunk;
use crate::errors::{UfoConfigErr, UfoLookupErr};
use crate::mmap_wrapers::BaseMmap;
use crate::segment_map::{
    lemma_entry_is_unique, spec_any_overlap, spec_entry, Segment, SegmentMap,
};
use crate::ufo_objects::{
    is_next_id, LoadWindow, UfoId, UfoIdGen, UfoObject, UfoObjectConfig, UfoOffset,
};
use crate::writeback::{spec_bitmap_bytes, spec_store_bytes, UfoFileWriteback};

verus! {

broadcast use vstd::std_specs::hash::group_hash_axioms;

/// What the caller fixes of the orchestrator.
#[derive(Debug)]
pub struct UfoCoreConfig {
    /// The directory of the files of the stores.
    pub writeback_temp_path: String,
    /// The number of resident bytes above which chunks are given back.
    pub high_watermark: usize,
    /// The number of resident bytes down to which chunks are given back.
    pub low_watermark: usize,
}

impl UfoCoreConfig {
    /// A configuration, if the low watermark lies below the high one.
    pub fn new(writeback_temp_path: String, high_watermark: usize, low_watermark: usize) -> (r:
        Result<UfoCoreConfig, UfoConfigErr>)
        ensures
            r is Ok <==> low_watermark < high_watermark,
            r is Err ==> r->Err_0 == UfoConfigErr::WatermarkOrder,
            r is Ok ==> r->Ok_0.writeback_temp_path == writeback_temp_path
                && r->Ok_0.high_watermark == high_watermark && r->Ok_0.low_watermark
                == low_watermark,
    {
        if low_watermark >= high_watermark {
            Err(UfoConfigErr::WatermarkOrder)
        } else {
            Ok(UfoCoreConfig { writeback_temp_path, high_watermark, low_watermark })
        }
    }
}

/// The buffer of one worker, into which chunks are populated. It grows to
/// the largest load that it was asked for and is never made shorter.
#[derive(Debug)]
pub struct UfoWriteBuffer {
    pub data: Vec<u8>,
}

impl UfoWriteBuffer {
    /// A buffer without bytes.
    pub fn new() -> (r: UfoWriteBuffer)
        ensures
            r.data@.len() == 0,
    {
        UfoWriteBuffer { data: Vec::new() }
    }

    /// Makes the buffer at least `capacity` bytes long. The bytes that it
    /// holds stay; the bytes that it gains are 0.
    pub fn ensure_capcity(&mut self, capacity: usize)
        ensures
            final(self).data@.len() == (if old(self).data@.len() < capacity {
                capacity as nat
            } else {
                old(self).data@.len()
            }),
            final(self).data@.subrange(0, old(self).data@.len() as int) == old(self).data@,
            forall|i: int| old(self).data@.len() <= i < capacity ==> final(self).data@[i] == 0u8,
    {
        while self.data.len() < capacity
            invariant
                old(self).data@.len() <= self.data@.len(),
                self.data@.len() <= capacity || self.data@.len() == old(self).data@.len(),
                self.data@.subrange(0, old(self).data@.len() as int) == old(self).data@,
                forall|i: int| old(self).data@.len() <= i < self.data@.len() ==> self.data@[i] == 0u8,
            decreases capacity - self.data@.len(),
        {
            let ghost before = self.data@;
            self.data.push(0);
            assert(self.data@.subrange(0, old(self).data@.len() as int) =~= before.subrange(
                0,
                old(self).data@.len() as int,
            ));
        }
        assert(self.data@.subrange(0, old(self).data@.len() as int) == old(self).data@);
    }

    /// The bytes of the buffer.
    pub fn slice(&self) -> (r: &[u8])
        ensures
            r@ == self.data@,
    {
        self.data.as_slice()
    }

    /// The bytes of the buffer, to be filled.
    pub fn slice_mut(&mut self) -> (r: &mut [u8])
        ensures
            r@ == old(self).data@,
            final(self).data@ == final(r)@,
    {
        self.data.as_mut_slice()
    }
}

/// The number of resident bytes of `chunks`.
pub open spec fn spec_total(chunks: Seq<UfoChunk>) -> int
    decreases chunks.len(),
{
    if chunks.len() == 0 {
        0
    } else {
        spec_total(chunks.drop_last()) + chunks.last().spec_size()
    }
}

/// `chunk` marked as gone.
pub open spec fn spec_tombstone(chunk: UfoChunk) -> UfoChunk {
    UfoChunk { ufo_id: chunk.ufo_id, offset: chunk.offset, length: None, hash: chunk.hash }
}

/// `chunks` with every chunk of the object `ufo_id` marked as gone.
pub open spec fn spec_dropped(chunks: Seq<UfoChunk>, ufo_id: UfoId) -> Seq<UfoChunk> {
    Seq::new(
        chunks.len(),
        |i: int|
            if chunks[i].ufo_id == ufo_id {
                spec_tombstone(chunks[i])
            } else {
                chunks[i]
            },
    )
}

/// No chunk of the object `ufo_id` among `chunks` has resident bytes.
pub open spec fn spec_nothing_resident(chunks: Seq<UfoChunk>, ufo_id: UfoId) -> bool {
    forall|i: int|
        0 <= i < chunks.len() && (#[trigger] chunks[i]).ufo_id == ufo_id ==> chunks[i].length is None
}

/// The bytes of two rows of chunks add up.
pub proof fn lemma_total_concat(a: Seq<UfoChunk>, b: Seq<UfoChunk>)
    ensures
        spec_total(a + b) == spec_total(a) + spec_total(b),
        spec_total(a) >= 0,
    decreases b.len(),
{
    if b.len() == 0 {
        assert(a + b =~= a);
        lemma_total_nonneg(a);
    } else {
        assert((a + b).drop_last() =~= a + b.drop_last());
        lemma_total_concat(a, b.drop_last());
    }
}

/// A row of chunks has no negative number of bytes.
pub proof fn lemma_total_nonneg(a: Seq<UfoChunk>)
    ensures
        spec_total(a) >= 0,
    decreases a.len(),
{
    if a.len() > 0 {
        lemma_total_nonneg(a.drop_last());
    }
}

/// The bytes of a row of chunks are those of its first chunk and of the
/// rest.
pub proof fn lemma_total_front(a: Seq<UfoChunk>)
    requires
        a.len() > 0,
    ensures
        spec_total(a) == a[0].spec_size() + spec_total(a.subrange(1, a.len() as int)),
{
    let first = a.subrange(0, 1);
    let rest = a.subrange(1, a.len() as int);
    assert(a =~= first + rest);
    lemma_total_concat(first, rest);
    assert(first.drop_last() =~= Seq::<UfoChunk>::empty());
    assert(spec_total(first) == first.last().spec_size()) by {
        assert(spec_total(first.drop_last()) == 0);
    }
}

/// Marking chunks as gone takes bytes away, and none where no chunk of the
/// object has any.
pub proof fn lemma_total_dropped(a: Seq<UfoChunk>, ufo_id: UfoId)
    ensures
        0 <= spec_total(spec_dropped(a, ufo_id)) <= spec_total(a),
    decreases a.len(),
{
    lemma_total_nonneg(spec_dropped(a, ufo_id));
    if a.len() > 0 {
        lemma_total_dropped(a.drop_last(), ufo_id);
        assert(spec_dropped(a, ufo_id).drop_last() =~= spec_dropped(a.drop_last(), ufo_id));
    }
}

/// The resident chunks in the order in which they were loaded, and the
/// number of their bytes.
#[derive(Debug)]
pub struct UfoChunks {
    pub loaded_chunks: VecDeque<UfoChunk>,
    pub used_memory: usize,
    pub high_watermark: usize,
    pub low_watermark: usize,
}

impl UfoChunks {
    pub open spec fn view(&self) -> Seq<UfoChunk> {
        self.loaded_chunks@
    }

    /// The counter holds the bytes of the chunks that are not gone, and the
    /// low watermark lies below the high one.
    pub open spec fn wf(&self) -> bool {
        &&& self.used_memory == spec_total(self@)
        &&& self.low_watermark < self.high_watermark
        &&& forall|i: int| 0 <= i < self@.len() ==> (#[trigger] self@[i]).wf()
    }

    /// No chunks.
    pub fn new(config: &UfoCoreConfig) -> (r: UfoChunks)
        requires
            config.low_watermark < config.high_watermark,
        ensures
            r.wf(),
            r@ == Seq::<UfoChunk>::empty(),
            r.used_memory == 0,
            r.high_watermark == config.high_watermark,
            r.low_watermark == config.low_watermark,
    {
        UfoChunks {
            loaded_chunks: VecDeque::new(),
            used_memory: 0,
            high_watermark: config.high_watermark,
            low_watermark: config.low_watermark,
        }
    }

    /// Records `chunk` as the chunk that was loaded last.
    pub fn add(&mut self, chunk: UfoChunk)
        requires
            old(self).wf(),
            chunk.wf(),
            old(self).used_memory + chunk.spec_size() <= usize::MAX,
        ensures
            final(self).wf(),
            final(self)@ == old(self)@.push(chunk),
            final(self).used_memory == old(self).used_memory + chunk.spec_size(),
            final(self).high_watermark == old(self).high_watermark,
            final(self).low_watermark == old(self).low_watermark,
    {
        proof {
            assert(self@.push(chunk).drop_last() =~= self@);
        }
        self.used_memory += chunk.size();
        self.loaded_chunks.push_back(chunk);
    }

    /// Marks every chunk of the object `ufo_id` as gone, and counts the
    /// bytes anew.
    pub fn drop_ufo_chunks(&mut self, ufo_id: UfoId)
        requires
            old(self).wf(),
        ensures
            final(self).wf(),
            final(self)@ == spec_dropped(old(self)@, ufo_id),
            final(self).used_memory <= old(self).used_memory,
            final(self).high_watermark == old(self).high_watermark,
            final(self).low_watermark == old(self).low_watermark,
    {
        let n = self.loaded_chunks.len();
        let mut i: usize = 0;
        let mut total: usize = 0;
        while i < n
            invariant
                i <= n,
                n == old(self)@.len(),
                self@ == old(self)@.subrange(i as int, n as int) + spec_dropped(
                    old(self)@.subrange(0, i as int),
                    ufo_id,
                ),
                total == spec_total(spec_dropped(old(self)@.subrange(0, i as int), ufo_id)),
                old(self).wf(),
                self.high_watermark == old(self).high_watermark,
                self.low_watermark == old(self).low_watermark,
            decreases n - i,
        {
            let ghost done = old(self)@.subrange(0, i as int);
            let ghost next_done = old(self)@.subrange(0, i as int + 1);
            assert(self@.len() == n);
            let mut chunk = self.loaded_chunks.pop_front().unwrap();
            assert(chunk == old(self)@[i as int]);
            if chunk.ufo_id().0 == ufo_id.0 {
                chunk.mark_freed();
            }
            proof {
                assert(spec_dropped(next_done, ufo_id) =~= spec_dropped(done, ufo_id).push(chunk));
                assert(spec_dropped(next_done, ufo_id).drop_last() =~= spec_dropped(done, ufo_id));
                lemma_total_dropped(next_done, ufo_id);
                assert(old(self)@ =~= next_done + old(self)@.subrange(i as int + 1, n as int));
                lemma_total_concat(next_done, old(self)@.subrange(i as int + 1, n as int));
                lemma_total_nonneg(old(self)@.subrange(i as int + 1, n as int));
            }
            total += chunk.size();
            self.loaded_chunks.push_back(chunk);
            i += 1;
            assert(self@ =~= old(self)@.subrange(i as int, n as int) + spec_dropped(
                old(self)@.subrange(0, i as int),
                ufo_id,
            ));
        }
        proof {
            assert(old(self)@.subrange(0, n as int) =~= old(self)@);
            assert(old(self)@.subrange(n as int, n as int) =~= Seq::<UfoChunk>::empty());
            assert(self@ =~= spec_dropped(old(self)@, ufo_id));
            lemma_total_dropped(old(self)@, ufo_id);
        }
        self.used_memory = total;
    }

    /// Takes the chunks that were loaded first out of the row, as many as it
    /// takes to bring the bytes of the rest down to the low watermark, and
    /// returns them for the caller to give back.
    pub fn free_until_low_water_mark(&mut self) -> (victims: Vec<UfoChunk>)
        requires
            old(self).wf(),
        ensures
            final(self).wf(),
            old(self)@ == victims@ + final(self)@,
            final(self).used_memory == old(self).used_memory - spec_total(victims@),
            final(self).used_memory <= final(self).low_watermark,
            forall|k: int|
                0 <= k < victims@.len() ==> old(self).used_memory - spec_total(
                    #[trigger] victims@.subrange(0, k),
                ) > final(self).low_watermark,
            final(self).high_watermark == old(self).high_watermark,
            final(self).low_watermark == old(self).low_watermark,
    {
        let low_water_mark = self.low_watermark;
        let mut to_free: Vec<UfoChunk> = Vec::new();
        let mut will_free_bytes: usize = 0;
        proof {
            assert(to_free@ + self@ =~= old(self)@);
            lemma_total_nonneg(self@);
        }
        while self.used_memory - will_free_bytes > low_water_mark
            invariant
                old(self).wf(),
                old(self)@ == to_free@ + self@,
                will_free_bytes == spec_total(to_free@),
                self.used_memory == old(self).used_memory,
                self.used_memory - will_free_bytes == spec_total(self@),
                will_free_bytes <= self.used_memory,
                low_water_mark == self.low_watermark,
                self.high_watermark == old(self).high_watermark,
                self.low_watermark == old(self).low_watermark,
                forall|i: int| 0 <= i < self@.len() ==> (#[trigger] self@[i]).wf(),
                forall|k: int|
                    0 <= k < to_free@.len() ==> old(self).used_memory - spec_total(
                        #[trigger] to_free@.subrange(0, k),
                    ) > low_water_mark,
            decreases self@.len(),
        {
            let ghost before = self@;
            let ghost freed = to_free@;
            assert(before.len() > 0);
            let chunk = self.loaded_chunks.pop_front().unwrap();
            proof {
                lemma_total_front(before);
                lemma_total_nonneg(self@);
                assert(self@ =~= before.subrange(1, before.len() as int));
                assert(freed.push(chunk).drop_last() =~= freed);
                assert(freed.push(chunk) + self@ =~= old(self)@);
                assert forall|k: int| 0 <= k < freed.len() + 1 implies old(self).used_memory
                    - spec_total(#[trigger] freed.push(chunk).subrange(0, k)) > low_water_mark by {
                    if k < freed.len() {
                        assert(freed.push(chunk).subrange(0, k) =~= freed.subrange(0, k));
                    } else {
                        assert(freed.push(chunk).subrange(0, k) =~= freed);
                    }
                }
            }
            will_free_bytes += chunk.size();
            to_free.push(chunk);
        }
        self.used_memory -= will_free_bytes;
        to_free
    }
}

/// Why an object was not allocated.
#[derive(Debug, Clone, Copy, PartialEq, Eq, Structural)]
pub enum AllocateFailure {
    /// Every identity is taken.
    IdsExhausted,
    /// The store of the object cannot be laid out.
    Store(UfoConfigErr),
    /// The mapping is empty, or shares an address with the mapping of a
    /// live object.
    Overlap,
}

/// Why a fault was not planned.
#[derive(Debug, Clone, Copy, PartialEq, Eq, Structural)]
pub enum FaultErr {
    /// No live object owns the address.
    UfoNotFound,
    /// The address lies in the header of its object.
    InHeader,
    /// One load and the low watermark together reach the high watermark.
    LoadTooLarge,
}

/// What is to be done for one fault.
#[derive(Debug)]
pub struct FaultPlan {
    /// The object that owns the address.
    pub ufo_id: UfoId,
    /// The part of the object to bring in.
    pub window: LoadWindow,
    /// The chunks to give back before the load.
    pub victims: Vec<UfoChunk>,
}

/// The range of addresses of the mapping of `object`.
pub open spec fn spec_segment_of(object: UfoObject) -> Segment {
    Segment {
        start: object.mmap.base,
        end: (object.mmap.base + object.mmap.len) as usize,
        id: object.id,
    }
}

/// A state is well formed if it has the objects, the ranges and the chunks
/// of a well-formed state, of whose chunks it may lack some.
proof fn lemma_state_frame(before: UfoCoreState, after: UfoCoreState, skipped: int)
    requires
        before.wf(),
        after.objects() == before.objects(),
        after.segments() == before.segments(),
        after.loaded_chunks.wf(),
        0 <= skipped <= before.chunks().len(),
        after.chunks() == before.chunks().subrange(skipped, before.chunks().len() as int),
    ensures
        after.wf(),
{
    assert(before.ids_agree() && before.index_covers_objects() && before.chunks_are_owned());
    assert(after.objects_by_segment.wf());
    assert(after.ids_agree());
    assert(after.index_covers_objects());
    let kept = after.chunks();
    assert forall|i: int| 0 <= i < kept.len() && (#[trigger] kept[i]).length is Some
        implies after.objects().contains_key(kept[i].ufo_id.0) && kept[i].belongs_to(
        &after.objects()[kept[i].ufo_id.0],
    ) by {
        assert(before.chunks()[skipped + i] == kept[i]);
    }
}

/// The state of the orchestrator.
#[derive(Debug)]
pub struct UfoCoreState {
    pub object_id_gen: UfoIdGen,
    pub objects_by_id: HashMap<u64, UfoObject>,
    pub objects_by_segment: SegmentMap,
    pub loaded_chunks: UfoChunks,
}

impl UfoCoreState {
    /// The live objects by their identities.
    pub open spec fn objects(&self) -> Map<u64, UfoObject> {
        self.objects_by_id@
    }

    /// The ranges of the address index.
    pub open spec fn segments(&self) -> Seq<Segment> {
        self.objects_by_segment@
    }

    /// The resident chunks, oldest first.
    pub open spec fn chunks(&self) -> Seq<UfoChunk> {
        self.loaded_chunks@
    }

    /// Every object stands under its own identity.
    pub open spec fn ids_agree(&self) -> bool {
        forall|k: u64| #[trigger]
            self.objects().contains_key(k) ==> self.objects()[k].wf() && self.objects()[k].id.0
                == k
    }

    /// The address index holds the mappings of the live objects and no
    /// others.
    pub open spec fn index_covers_objects(&self) -> bool {
        &&& forall|i: int|
            0 <= i < self.segments().len() ==> self.objects().contains_key(
                (#[trigger] self.segments()[i]).id.0,
            ) && self.segments()[i] == spec_segment_of(self.objects()[self.segments()[i].id.0])
        &&& forall|k: u64| #[trigger]
            self.objects().contains_key(k) ==> exists|i: int|
                0 <= i < self.segments().len() && (#[trigger] self.segments()[i]).id.0 == k
    }

    /// Every chunk that is not gone is a chunk of a live object.
    pub open spec fn chunks_are_owned(&self) -> bool {
        forall|i: int|
            0 <= i < self.chunks().len() && (#[trigger] self.chunks()[i]).length is Some
                ==> self.objects().contains_key(self.chunks()[i].ufo_id.0)
                && self.chunks()[i].belongs_to(&self.objects()[self.chunks()[i].ufo_id.0])
    }

    pub open spec fn wf(&self) -> bool {
        &&& self.loaded_chunks.wf()
        &&& self.objects_by_segment.wf()
        &&& self.ids_agree()
        &&& self.index_covers_objects()
        &&& self.chunks_are_owned()
    }

    /// The state of an orchestrator without objects.
    pub fn new(config: &UfoCoreConfig) -> (r: UfoCoreState)
        requires
            config.low_watermark < config.high_watermark,
        ensures
            r.wf(),
            r.objects() == Map::<u64, UfoObject>::empty(),
            r.segments() == Seq::<Segment>::empty(),
            r.chunks() == Seq::<UfoChunk>::empty(),
            r.loaded_chunks.used_memory == 0,
            r.loaded_chunks.high_watermark == config.high_watermark,
            r.loaded_chunks.low_watermark == config.low_watermark,
    {
        UfoCoreState {
            object_id_gen: UfoIdGen::new(),
            objects_by_id: HashMap::new(),
            objects_by_segment: SegmentMap::new(),
            loaded_chunks: UfoChunks::new(config),
        }
    }

    /// The object with the identity `id`.
    pub fn get_ufo_by_id(&self, id: UfoId) -> (r: Result<&UfoObject, UfoLookupErr>)
        ensures
            r is Ok <==> self.objects().contains_key(id.0),
            r is Ok ==> *r->Ok_0 == self.objects()[id.0],
            r is Err ==> r->Err_0 == UfoLookupErr::UfoNotFound,
    {
        match self.objects_by_id.get(&id.0) {
            Some(ufo) => Ok(ufo),
            None => Err(UfoLookupErr::UfoNotFound),
        }
    }

    /// The object whose mapping holds the address `ptr`.
    pub fn get_ufo_by_address(&self, ptr: usize) -> (r: Result<&UfoObject, UfoLookupErr>)
        requires
            self.wf(),
        ensures
            r is Ok <==> spec_entry(self.segments(), ptr) is Some,
            r is Ok ==> {
                &&& self.objects().contains_key(r->Ok_0.id.0)
                &&& *r->Ok_0 == self.objects()[r->Ok_0.id.0]
                &&& r->Ok_0.id == spec_entry(self.segments(), ptr)->0.id
                &&& r->Ok_0.mmap.spec_contains(ptr)
            },
            r is Err ==> r->Err_0 == UfoLookupErr::UfoNotFound,
    {
        match self.objects_by_segment.get(ptr) {
            Some(id) => {
                proof {
                    let entry = spec_entry(self.segments(), ptr)->0;
                    let i = choose|i: int|
                        0 <= i < self.segments().len() && (#[trigger] self.segments()[i]).spec_contains(
                            ptr,
                        );
                    assert(self.segments()[i] == entry);
                }
                match self.objects_by_id.get(&id.0) {
                    Some(ufo) => Ok(ufo),
                    None => Err(UfoLookupErr::UfoNotFound),
                }
            },
            None => Err(UfoLookupErr::UfoNotFound),
        }
    }

    /// Takes a new object into both indices: it gets the next free
    /// identity and a store for the layout `config`, and its mapping `mmap`,
    /// which the caller made, goes into the address index.
    ///
    /// Where the object is refused, the indices and the chunks stay as they
    /// are.
    pub fn allocate_impl(&mut self, config: UfoObjectConfig, mmap: BaseMmap, page_size: usize) -> (r:
        Result<UfoId, AllocateFailure>)
        requires
            old(self).wf(),
            config.wf(),
            mmap.wf(),
            mmap.len == config.true_size,
            page_size > 0,
        ensures
            final(self).wf(),
            final(self).chunks() == old(self).chunks(),
            final(self).loaded_chunks == old(self).loaded_chunks,
            r == Err::<UfoId, AllocateFailure>(AllocateFailure::IdsExhausted) <==> old(self).objects().dom().len() >= usize::MAX,
            r == Err::<UfoId, AllocateFailure>(AllocateFailure::Store(UfoConfigErr::SizeOverflow))
                <==> old(self).objects().dom().len() < usize::MAX && spec_store_bytes(
                config,
                page_size as int,
            ) > usize::MAX,
            r is Ok <==> old(self).objects().dom().len() < usize::MAX && spec_store_bytes(
                config,
                page_size as int,
            ) <= usize::MAX && mmap.len > 0 && !spec_any_overlap(
                old(self).segments(),
                mmap.base,
                (mmap.base + mmap.len) as usize,
            ),
            r is Err ==> final(self).objects() == old(self).objects() && final(self).segments()
                == old(self).segments(),
            old(self).objects().dom().len() >= usize::MAX ==> final(self).object_id_gen == old(self).object_id_gen,
            old(self).objects().dom().len() < usize::MAX ==> is_next_id(
                old(self).objects(),
                old(self).object_id_gen@,
                final(self).object_id_gen@,
            ),
            r is Ok ==> {
                let id = r->Ok_0;
                &&& id.0 == final(self).object_id_gen@
                &&& final(self).objects().dom() == old(self).objects().dom().insert(id.0)
                &&& final(self).objects()[id.0].writeback_util.total_bytes == spec_store_bytes(
                    config,
                    page_size as int,
                )
                &&& final(self).objects()[id.0].writeback_util.header_bytes == 2
                    * spec_bitmap_bytes(config, page_size as int)
                &&& final(self).objects()[id.0].writeback_util.chunk_locks.fresh(
                    spec_bitmap_bytes(config, page_size as int) as usize,
                    final(self).objects()[id.0].writeback_util.chunk_ct,
                )
                &&& forall|k: u64|
                    old(self).objects().contains_key(k) ==> final(self).objects()[k] == old(self).objects()[k]
                &&& final(self).objects()[id.0].id == id
                &&& final(self).objects()[id.0].config == config
                &&& final(self).objects()[id.0].mmap == mmap
                &&& final(self).segments() == old(self).segments().push(
                    Segment { start: mmap.base, end: (mmap.base + mmap.len) as usize, id },
                )
                &&& spec_nothing_resident(final(self).chunks(), id)
            },
    {
        if self.objects_by_id.len() == usize::MAX {
            return Err(AllocateFailure::IdsExhausted);
        }
        let id = self.object_id_gen.next(&self.objects_by_id);
        let writeback = match UfoFileWriteback::new(id, &config, page_size) {
            Ok(w) => w,
            Err(e) => {
                proof {
                    assert(self.chunks() =~= old(self).chunks().subrange(
                        0,
                        old(self).chunks().len() as int,
                    ));
                    lemma_state_frame(*old(self), *self, 0);
                }
                return Err(AllocateFailure::Store(e));
            },
        };
        let start = mmap.base;
        let end: usize = mmap.base + mmap.len;
        let ufo = UfoObject::new(id, config, mmap, writeback);
        if !self.objects_by_segment.insert(start, end, id) {
            proof {
                assert(self.chunks() =~= old(self).chunks().subrange(
                    0,
                    old(self).chunks().len() as int,
                ));
                lemma_state_frame(*old(self), *self, 0);
            }
            return Err(AllocateFailure::Overlap);
        }
        self.objects_by_id.insert(id.0, ufo);
        proof {
            let segment = Segment { start, end, id };
            assert(self.segments() == old(self).segments().push(segment));
            assert(self.objects() == old(self).objects().insert(id.0, ufo));
            assert forall|i: int| 0 <= i < self.segments().len() implies self.objects().contains_key(
                (#[trigger] self.segments()[i]).id.0,
            ) && self.segments()[i] == spec_segment_of(
                self.objects()[self.segments()[i].id.0],
            ) by {
                if i < old(self).segments().len() {
                    assert(self.segments()[i] == old(self).segments()[i]);
                }
            }
            assert forall|k: u64| #[trigger] self.objects().contains_key(k) implies exists|i: int|
                0 <= i < self.segments().len() && (#[trigger] self.segments()[i]).id.0 == k by {
                if k == id.0 {
                    assert(self.segments()[old(self).segments().len() as int].id.0 == k);
                } else {
                    assert(old(self).objects().contains_key(k));
                    let i = choose|i: int|
                        0 <= i < old(self).segments().len() && (#[trigger] old(self).segments()[i]).id.0 == k;
                    assert(self.segments()[i] == old(self).segments()[i]);
                }
            }
        }
        Ok(id)
    }

    /// Forgets what is resident of the object `ufo_id`: its chunks are
    /// marked as gone. Returns the address and the length of the body, which
    /// the caller gives back to the kernel together with the contents of the
    /// object's store.
    pub fn reset_impl(&mut self, ufo_id: UfoId) -> (r: Result<(usize, usize), UfoLookupErr>)
        requires
            old(self).wf(),
        ensures
            final(self).wf(),
            final(self).objects() == old(self).objects(),
            final(self).segments() == old(self).segments(),
            r is Ok <==> old(self).objects().contains_key(ufo_id.0),
            r is Err ==> r->Err_0 == UfoLookupErr::UfoNotFound && final(self).chunks() == old(self).chunks(),
            r is Ok ==> {
                let object = old(self).objects()[ufo_id.0];
                &&& r->Ok_0.0 == object.mmap.base + object.config.header_size_with_padding
                &&& r->Ok_0.1 == object.config.true_size - object.config.header_size_with_padding
                &&& final(self).chunks() == spec_dropped(old(self).chunks(), ufo_id)
                &&& spec_nothing_resident(final(self).chunks(), ufo_id)
            },
    {
        assert(self.ids_agree());
        let plan = match self.objects_by_id.get(&ufo_id.0) {
            Some(ufo) => {
                assert(self.objects().contains_key(ufo_id.0));
                ufo.reset_internal()
            },
            None => { return Err(UfoLookupErr::UfoNotFound); },
        };
        self.loaded_chunks.drop_ufo_chunks(ufo_id);
        proof {
            assert(old(self).chunks_are_owned());
            assert(old(self).index_covers_objects());
            let kept = self.chunks();
            assert forall|i: int| 0 <= i < kept.len() && (#[trigger] kept[i]).length is Some
                implies self.objects().contains_key(kept[i].ufo_id.0) && kept[i].belongs_to(
                &self.objects()[kept[i].ufo_id.0],
            ) by {
                assert(kept[i] == old(self).chunks()[i]);
            }
        }
        Ok(plan)
    }

    /// Takes the object `ufo_id` out of both indices and marks its chunks
    /// as gone. Returns the object, whose mapping the caller unregisters and
    /// releases.
    pub fn free_impl(&mut self, ufo_id: UfoId) -> (r: Result<UfoObject, UfoLookupErr>)
        requires
            old(self).wf(),
        ensures
            final(self).wf(),
            r is Ok <==> old(self).objects().contains_key(ufo_id.0),
            r is Err ==> {
                &&& r->Err_0 == UfoLookupErr::UfoNotFound
                &&& final(self).objects() == old(self).objects()
                &&& final(self).segments() == old(self).segments()
                &&& final(self).chunks() == old(self).chunks()
            },
            r is Ok ==> {
                &&& r->Ok_0 == old(self).objects()[ufo_id.0]
                &&& final(self).objects() == old(self).objects().remove(ufo_id.0)
                &&& final(self).chunks() == spec_dropped(old(self).chunks(), ufo_id)
                &&& spec_nothing_resident(final(self).chunks(), ufo_id)
                &&& exists|i: int|
                    0 <= i < old(self).segments().len() && old(self).segments()[i]
                        == spec_segment_of(r->Ok_0) && final(self).segments() == old(self).segments().remove(i)
                &&& forall|addr: usize|
                    !r->Ok_0.mmap.spec_contains(addr) ==> #[trigger] spec_entry(
                        final(self).segments(),
                        addr,
                    ) == spec_entry(old(self).segments(), addr)
                &&& forall|addr: usize|
                    r->Ok_0.mmap.spec_contains(addr) ==> #[trigger] spec_entry(
                        final(self).segments(),
                        addr,
                    ) is None
            },
    {
        assert(self.ids_agree() && self.index_covers_objects() && self.chunks_are_owned());
        let ufo = match self.objects_by_id.remove(&ufo_id.0) {
            Some(u) => u,
            None => {
                assert(self.objects() == old(self).objects());
                return Err(UfoLookupErr::UfoNotFound);
            },
        };
        let ghost own = choose|i: int|
            0 <= i < old(self).segments().len() && (#[trigger] old(self).segments()[i]).id.0
                == ufo_id.0;
        proof {
            assert(old(self).objects().contains_key(ufo_id.0));
            assert(old(self).segments()[own] == spec_segment_of(ufo));
            assert(old(self).segments()[own].spec_contains(ufo.mmap.base));
            lemma_entry_is_unique(old(self).segments(), ufo.mmap.base, own);
        }
        let removed = self.objects_by_segment.remove_by_start(ufo.mmap.base);
        self.loaded_chunks.drop_ufo_chunks(ufo_id);
        proof {
            let before = old(self).segments();
            let after = self.segments();
            let gone = choose|i: int|
                0 <= i < before.len() && before[i] == removed->0 && after == before.remove(i);
            assert(before[gone] == before[own]);
            if gone != own {
                assert(before[gone].spec_overlaps(before[own].start, before[own].end));
            }
            assert(after == before.remove(own));
            assert forall|i: int| 0 <= i < after.len() implies self.objects().contains_key(
                (#[trigger] after[i]).id.0,
            ) && after[i] == spec_segment_of(self.objects()[after[i].id.0]) by {
                let b = if i < own { i } else { i + 1 };
                assert(after[i] == before[b]);
                if before[b].id.0 == ufo_id.0 {
                    assert(before[b] == before[own]);
                    assert(before[b].spec_overlaps(before[own].start, before[own].end));
                }
            }
            assert forall|k: u64| #[trigger] self.objects().contains_key(k) implies exists|i: int|
                0 <= i < after.len() && (#[trigger] after[i]).id.0 == k by {
                assert(old(self).objects().contains_key(k));
                let b = choose|i: int| 0 <= i < before.len() && (#[trigger] before[i]).id.0 == k;
                let a = if b < own { b } else { b - 1 };
                assert(after[a] == before[b]);
            }
            let kept = self.chunks();
            assert forall|i: int| 0 <= i < kept.len() && (#[trigger] kept[i]).length is Some
                implies self.objects().contains_key(kept[i].ufo_id.0) && kept[i].belongs_to(
                &self.objects()[kept[i].ufo_id.0],
            ) by {
                assert(kept[i] == old(self).chunks()[i]);
            }
            assert forall|addr: usize| !ufo.mmap.spec_contains(addr) implies #[trigger] spec_entry(
                after,
                addr,
            ) == spec_entry(before, addr) by {
                crate::segment_map::lemma_remove_keeps_other_entries(before, own, addr);
            }
            assert forall|addr: usize| ufo.mmap.spec_contains(addr) implies #[trigger] spec_entry(
                after,
                addr,
            ) is None by {
                if spec_entry(after, addr) is Some {
                    let i = choose|i: int|
                        0 <= i < after.len() && (#[trigger] after[i]).spec_contains(addr);
                    let b = if i < own { i } else { i + 1 };
                    assert(after[i] == before[b]);
                    assert(before[b].spec_overlaps(before[own].start, before[own].end));
                }
            }
        }
        Ok(ufo)
    }

    /// Gives chunks back, if `to_load` bytes more would lift the resident
    /// bytes above the high watermark: the chunks that were loaded first
    /// leave the row, as many as it takes to reach the low watermark, and are
    /// returned for the caller to give back.
    pub fn ensure_capcity(&mut self, to_load: usize) -> (victims: Vec<UfoChunk>)
        requires
            old(self).wf(),
            to_load + old(self).loaded_chunks.low_watermark < old(self).loaded_chunks.high_watermark,
        ensures
            final(self).wf(),
            final(self).objects() == old(self).objects(),
            final(self).segments() == old(self).segments(),
            final(self).object_id_gen == old(self).object_id_gen,
            final(self).loaded_chunks.high_watermark == old(self).loaded_chunks.high_watermark,
            final(self).loaded_chunks.low_watermark == old(self).loaded_chunks.low_watermark,
            old(self).chunks() == victims@ + final(self).chunks(),
            final(self).loaded_chunks.used_memory == old(self).loaded_chunks.used_memory
                - spec_total(victims@),
            final(self).loaded_chunks.used_memory + to_load <= final(self).loaded_chunks.high_watermark,
            to_load + old(self).loaded_chunks.used_memory <= old(self).loaded_chunks.high_watermark
                ==> victims@.len() == 0,
            to_load + old(self).loaded_chunks.used_memory > old(self).loaded_chunks.high_watermark
                ==> final(self).loaded_chunks.used_memory <= final(self).loaded_chunks.low_watermark,
            forall|k: int|
                0 <= k < victims@.len() ==> old(self).loaded_chunks.used_memory - spec_total(
                    #[trigger] victims@.subrange(0, k),
                ) > final(self).loaded_chunks.low_watermark,
    {
        if self.loaded_chunks.used_memory > self.loaded_chunks.high_watermark - to_load {
            let victims = self.loaded_chunks.free_until_low_water_mark();
            proof {
                assert(self.chunks() =~= old(self).chunks().subrange(
                    victims@.len() as int,
                    old(self).chunks().len() as int,
                ));
                lemma_state_frame(*old(self), *self, victims@.len() as int);
            }
            victims
        } else {
            let victims: Vec<UfoChunk> = Vec::new();
            proof {
                assert(victims@ + self.chunks() =~= old(self).chunks());
            }
            victims
        }
    }

    /// Frees every live object, as `free_impl` does, and returns them.
    /// Nothing is resident after that.
    pub fn shutdown_impl(&mut self) -> (freed: Vec<UfoObject>)
        requires
            old(self).wf(),
        ensures
            final(self).wf(),
            final(self).objects() == Map::<u64, UfoObject>::empty(),
            final(self).segments().len() == 0,
            final(self).loaded_chunks.used_memory == 0,
            forall|i: int|
                0 <= i < final(self).chunks().len() ==> (#[trigger] final(self).chunks()[i]).length is None,
            freed@.len() == old(self).segments().len(),
            forall|i: int|
                0 <= i < freed@.len() ==> old(self).objects().contains_key(
                    (#[trigger] freed@[i]).id.0,
                ) && freed@[i] == old(self).objects()[freed@[i].id.0],
            forall|k: u64| #[trigger]
                old(self).objects().contains_key(k) ==> exists|i: int|
                    0 <= i < freed@.len() && (#[trigger] freed@[i]).id.0 == k,
    {
        let mut freed: Vec<UfoObject> = Vec::new();
        while self.objects_by_segment.len() > 0
            invariant
                self.wf(),
                freed@.len() + self.segments().len() == old(self).segments().len(),
                forall|i: int|
                    0 <= i < freed@.len() ==> old(self).objects().contains_key(
                        (#[trigger] freed@[i]).id.0,
                    ) && freed@[i] == old(self).objects()[freed@[i].id.0],
                forall|k: u64| #[trigger]
                    self.objects().contains_key(k) ==> old(self).objects().contains_key(k)
                        && self.objects()[k] == old(self).objects()[k],
                forall|k: u64| #[trigger]
                    old(self).objects().contains_key(k) ==> self.objects().contains_key(k)
                        || exists|i: int| 0 <= i < freed@.len() && (#[trigger] freed@[i]).id.0 == k,
            decreases self.segments().len(),
        {
            let n = self.objects_by_segment.len();
            let last = self.objects_by_segment.segments[n - 1].id;
            let ghost before = self.objects();
            let ghost done = freed@;
            proof {
                assert(self.index_covers_objects());
                assert(self.objects().contains_key(self.segments()[n - 1].id.0));
            }
            match self.free_impl(last) {
                Ok(ufo) => {
                    freed.push(ufo);
                    proof {
                        assert forall|k: u64| #[trigger]
                            old(self).objects().contains_key(k) implies self.objects().contains_key(
                            k,
                        ) || exists|i: int| 0 <= i < freed@.len() && (#[trigger] freed@[i]).id.0
                            == k by {
                            if !self.objects().contains_key(k) {
                                if before.contains_key(k) {
                                    assert(k == last.0);
                                    assert(freed@[done.len() as int].id.0 == k);
                                } else {
                                    let i = choose|i: int|
                                        0 <= i < done.len() && (#[trigger] done[i]).id.0 == k;
                                    assert(freed@[i] == done[i]);
                                }
                            }
                        }
                    }
                },
                Err(_) => {},
            }
        }
        proof {
            assert(self.index_covers_objects() && self.chunks_are_owned());
            assert forall|k: u64| !self.objects().contains_key(k) by {
                if self.objects().contains_key(k) {
                    let i = choose|i: int|
                        0 <= i < self.segments().len() && (#[trigger] self.segments()[i]).id.0 == k;
                }
            }
            assert(self.objects() =~= Map::<u64, UfoObject>::empty());
            lemma_total_all_gone(self.chunks());
        }
        freed
    }

    /// The first step of resolving a fault at the address `addr`: finds the
    /// object that owns the address and the chunk to bring in, and makes
    /// room for one load.
    ///
    /// An address that no object owns, an address in a header, and a load
    /// that the watermarks leave no room for are refused, and the state
    /// stays as it is.
    pub fn begin_populate(&mut self, addr: usize) -> (r: Result<FaultPlan, FaultErr>)
        requires
            old(self).wf(),
        ensures
            final(self).wf(),
            final(self).objects() == old(self).objects(),
            final(self).segments() == old(self).segments(),
            final(self).loaded_chunks.high_watermark == old(self).loaded_chunks.high_watermark,
            final(self).loaded_chunks.low_watermark == old(self).loaded_chunks.low_watermark,
            r == Err::<FaultPlan, FaultErr>(FaultErr::UfoNotFound) <==> spec_entry(
                old(self).segments(),
                addr,
            ) is None,
            spec_entry(old(self).segments(), addr) is Some ==> {
                let object = old(self).objects()[spec_entry(old(self).segments(), addr)->0.id.0];
                let body = object.mmap.base + object.config.header_size_with_padding;
                let load = object.config.spec_load_size();
                let watermarks = old(self).loaded_chunks;
                &&& r == Err::<FaultPlan, FaultErr>(FaultErr::InHeader) <==> addr < body
                &&& r == Err::<FaultPlan, FaultErr>(FaultErr::LoadTooLarge) <==> addr >= body
                    && load + watermarks.low_watermark >= watermarks.high_watermark
                &&& r is Ok ==> {
                    let plan = r->Ok_0;
                    &&& plan.ufo_id == object.id
                    &&& plan.window == object.config.spec_load_window(
                        spec_offset_of(object, addr),
                    )
                    &&& plan.window.offset.wf()
                    &&& plan.window.offset.base_addr == object.mmap.base
                    &&& plan.window.offset.header_bytes == object.config.header_size_with_padding
                    &&& plan.window.offset.at_chunk_start(load)
                    &&& plan.window.offset.absolute_offset_bytes + plan.window.populate_size
                        <= object.mmap.len
                    &&& plan.window.populate_size <= plan.window.load_size == load
                    &&& plan.window.start < plan.window.end <= object.config.element_ct
                    &&& old(self).chunks() == plan.victims@ + final(self).chunks()
                    &&& final(self).loaded_chunks.used_memory == watermarks.used_memory
                        - spec_total(plan.victims@)
                    &&& final(self).loaded_chunks.used_memory + load <= watermarks.high_watermark
                    &&& load + watermarks.used_memory <= watermarks.high_watermark
                        ==> plan.victims@.len() == 0
                    &&& load + watermarks.used_memory > watermarks.high_watermark ==> final(self).loaded_chunks.used_memory <= watermarks.low_watermark
                    &&& forall|k: int|
                        0 <= k < plan.victims@.len() ==> watermarks.used_memory - spec_total(
                            #[trigger] plan.victims@.subrange(0, k),
                        ) > watermarks.low_watermark
                }
            },
            r is Err ==> final(self).chunks() == old(self).chunks() && final(self).loaded_chunks.used_memory == old(self).loaded_chunks.used_memory,
    {
        let window = {
            let ufo = match self.get_ufo_by_address(addr) {
                Ok(ufo) => ufo,
                Err(_) => { return Err(FaultErr::UfoNotFound); },
            };
            proof {
                assert(self.ids_agree());
            }
            if addr - ufo.mmap.base < ufo.config.header_size_with_padding {
                return Err(FaultErr::InHeader);
            }
            let fault_offset = UfoOffset::from_addr(ufo, addr);
            proof {
                crate::ufo_objects::lemma_window(ufo.config, fault_offset);
            }
            (ufo.id, ufo.config.load_window(&fault_offset))
        };
        let load_size = window.1.load_size;
        if load_size >= self.loaded_chunks.high_watermark - self.loaded_chunks.low_watermark {
            return Err(FaultErr::LoadTooLarge);
        }
        let victims = self.ensure_capcity(load_size);
        Ok(FaultPlan { ufo_id: window.0, window: window.1, victims })
    }

    /// The last step of resolving a fault: records the chunk that was
    /// brought in as the one that was loaded last.
    pub fn finish_populate(&mut self, chunk: UfoChunk)
        requires
            old(self).wf(),
            chunk.wf(),
            chunk.length is Some ==> old(self).objects().contains_key(chunk.ufo_id.0)
                && chunk.belongs_to(&old(self).objects()[chunk.ufo_id.0]),
            old(self).loaded_chunks.used_memory + chunk.spec_size() <= usize::MAX,
        ensures
            final(self).wf(),
            final(self).objects() == old(self).objects(),
            final(self).segments() == old(self).segments(),
            final(self).chunks() == old(self).chunks().push(chunk),
            final(self).loaded_chunks.used_memory == old(self).loaded_chunks.used_memory
                + chunk.spec_size(),
            final(self).loaded_chunks.high_watermark == old(self).loaded_chunks.high_watermark,
            final(self).loaded_chunks.low_watermark == old(self).loaded_chunks.low_watermark,
    {
        self.loaded_chunks.add(chunk);
        proof {
            assert(old(self).ids_agree() && old(self).index_covers_objects() && old(self).chunks_are_owned());
            assert(self.objects() == old(self).objects());
            assert(self.segments() == old(self).segments());
            assert(self.ids_agree());
            assert(self.index_covers_objects());
            let kept = self.chunks();
            assert forall|i: int| 0 <= i < kept.len() && (#[trigger] kept[i]).length is Some
                implies self.objects().contains_key(kept[i].ufo_id.0) && kept[i].belongs_to(
                &self.objects()[kept[i].ufo_id.0],
            ) by {
                if i < old(self).chunks().len() {
                    assert(kept[i] == old(self).chunks()[i]);
                }
            }
        }
    }
}

/// The place of the address `addr` in `object`.
pub open spec fn spec_offset_of(object: UfoObject, addr: usize) -> UfoOffset {
    let off_head = addr - object.mmap.base - object.config.header_size_with_padding;
    UfoOffset {
        base_addr: object.mmap.base,
        chunk_number: (off_head / object.config.spec_load_size()) as usize,
        stride: object.config.stride,
        header_bytes: object.config.header_size_with_padding,
        absolute_offset_bytes: (addr - object.mmap.base) as usize,
    }
}

/// Chunks that are all gone have no bytes.
pub proof fn lemma_total_all_gone(chunks: Seq<UfoChunk>)
    requires
        forall|i: int| 0 <= i < chunks.len() ==> (#[trigger] chunks[i]).length is None,
    ensures
        spec_total(chunks) == 0,
    decreases chunks.len(),
{
    if chunks.len() > 0 {
        assert forall|i: int| 0 <= i < chunks.drop_last().len() implies (
        #[trigger] chunks.drop_last()[i]).length is None by {
            assert(chunks.drop_last()[i] == chunks[i]);
        }
        lemma_total_all_gone(chunks.drop_last());
    }
}

/// The resident bytes stay at or below the high watermark over a fault:
/// after room was made for one load, a chunk of at most one load is
/// recorded.
pub proof fn lemma_fault_stays_under_high_watermark(
    planned: UfoCoreState,
    recorded: UfoCoreState,
    load_size: usize,
    chunk: UfoChunk,
)
    requires
        planned.loaded_chunks.used_memory + load_size <= planned.loaded_chunks.high_watermark,
        chunk.spec_size() <= load_size,
        recorded.loaded_chunks.used_memory == planned.loaded_chunks.used_memory
            + chunk.spec_size(),
        recorded.loaded_chunks.high_watermark == planned.loaded_chunks.high_watermark,
    ensures
        recorded.loaded_chunks.used_memory <= recorded.loaded_chunks.high_watermark,
{
}

/// Every address of the mapping of a live object is owned, in the address
/// index, by that object.
pub proof fn lemma_owner_of_address(state: UfoCoreState, id: u64, addr: usize)
    requires
        state.wf(),
        state.objects().contains_key(id),
        state.objects()[id].mmap.spec_contains(addr),
    ensures
        spec_entry(state.segments(), addr) == Some(spec_segment_of(state.objects()[id])),
{
    assert(state.ids_agree() && state.index_covers_objects());
    let i = choose|i: int|
        0 <= i < state.segments().len() && (#[trigger] state.segments()[i]).id.0 == id;
    assert(state.segments()[i] == spec_segment_of(state.objects()[id]));
    lemma_entry_is_unique(state.segments(), addr, i);
}

/// The mappings of two live objects share no address.
pub proof fn lemma_objects_do_not_alias(state: UfoCoreState, id: u64, other: u64, addr: usize)
    requires
        state.wf(),
        state.objects().contains_key(id),
        state.objects().contains_key(other),
        id != other,
        state.objects()[id].mmap.spec_contains(addr),
    ensures
        !state.objects()[other].mmap.spec_contains(addr),
{
    if state.objects()[other].mmap.spec_contains(addr) {
        lemma_owner_of_address(state, id, addr);
        lemma_owner_of_address(state, other, addr);
        assert(state.ids_agree());
    }
}

} // verus!
