//! The record of one resident chunk, and how its memory is given back.
//!
//! Giving a chunk back takes two steps with the kernel's work between them.
//! The first step decides what the kernel is asked to do: nothing, to drop
//! the pages, or to move them to the scratch mapping while the chunk's lock
//! is held. The second step looks at the moved pages, writes them to the
//! store if they differ from what was loaded, and marks the chunk as gone.

use vstd::prelude::*;
use crate::bitwise_spinlock::{lemma_take_then_release, BitGuard};
use crate::errors::BitlockErr;
use crate::math::{checked_up_to_nearest, spec_up_to_nearest, up_to_nearest};
use crate::mmap_wrapers::BaseMmap;
use crate::once_await::{OnceAwait, OnceFulfiller};
use crate::ufo_objects::{
    hash_function, same_hash, spec_hash_function, DataHash, UfoId, UfoObject, UfoOffset,
};
use crate::writeback::slice_between;

verus! {

/// A number of bytes that is to be rounded up to whole pages.
#[derive(Debug, Clone, Copy)]
pub struct SizeInPages(pub usize);

impl SizeInPages {
    /// The number of bytes of the pages that hold so many bytes.
    pub fn size_as_multiple_of_pages(&self, page_size: usize) -> (r: usize)
        requires
            page_size > 0,
            spec_up_to_nearest(self.0 as int, page_size as int) <= usize::MAX,
        ensures
            r == spec_up_to_nearest(self.0 as int, page_size as int),
    {
        up_to_nearest(self.0, page_size)
    }
}

/// Why a chunk was not given back.
#[derive(Debug, Clone, Copy, PartialEq, Eq, Structural)]
pub enum FreeErr {
    /// The lock of the chunk could not be taken.
    Lock(BitlockErr),
    /// The scratch mapping is shorter than the pages of the chunk.
    PivotTooSmall,
    /// The digest of what was loaded has not been published yet.
    DigestPending,
}

/// What the kernel is asked to do for a chunk that is given back.
#[derive(Debug)]
pub enum FreeAction {
    /// Nothing: the chunk is gone already, or its object is.
    Nothing,
    /// Drop the pages of `len` bytes at `addr`; `len` bytes are freed.
    Discard { addr: usize, len: usize },
    /// Move the pages of `pages` bytes at `addr` to the scratch mapping,
    /// leaving the range mapped, then finish with the guard.
    Snapshot { guard: BitGuard, addr: usize, pages: usize },
}

/// What is done with the scratch mapping before a chunk is moved to it.
#[derive(Debug, Clone, Copy, PartialEq, Eq, Structural)]
pub enum PivotAction {
    /// It is long enough.
    Keep,
    /// There is none yet: map one of so many bytes.
    Create(usize),
    /// It is too short: remap it to so many bytes.
    Grow(usize),
}

/// What the first step of giving a chunk back leaves: the chunk `after` of
/// the chunk `before`, the contents `region_after` of the store, and the
/// answer `r`.
pub open spec fn begun_free(
    before: UfoChunk,
    after: UfoChunk,
    object: Option<&UfoObject>,
    region_before: Seq<u8>,
    region_after: Seq<u8>,
    pivot_len: usize,
    page_size: usize,
    r: Result<FreeAction, FreeErr>,
) -> bool {
    &&& after.ufo_id == before.ufo_id
    &&& after.offset == before.offset
    &&& after.hash == before.hash
    &&& match before.spec_begin_free(object, region_before, pivot_len, page_size) {
        Err(e) => {
            &&& r == Err::<FreeAction, FreeErr>(e)
            &&& after.length == before.length
            &&& region_after == region_before
        },
        Ok(_) => if before.length is None || object is None {
            &&& r is Ok
            &&& r->Ok_0 is Nothing
            &&& after.length == before.length
            &&& region_after == region_before
        } else if object->0.config.read_only {
            &&& r is Ok
            &&& r->Ok_0 matches FreeAction::Discard { addr, len }
            &&& addr == object->0.mmap.base + before.offset.absolute_offset_bytes
            &&& len == before.spec_size()
            &&& after.length is None
            &&& region_after == region_before
        } else {
            &&& r is Ok
            &&& r->Ok_0 matches FreeAction::Snapshot { guard, addr, pages }
            &&& guard@ == before.offset.chunk_number
            &&& addr == object->0.mmap.base + before.offset.absolute_offset_bytes
            &&& pages == spec_up_to_nearest(before.spec_size() as int, page_size as int)
            &&& after.length == before.length
            &&& region_after == object->0.writeback_util.chunk_locks.spec_taken(
                region_before,
                before.offset.chunk_number as int,
            )
        },
    }
}

/// One resident chunk of one object.
#[derive(Debug)]
pub struct UfoChunk {
    pub ufo_id: UfoId,
    pub offset: UfoOffset,
    /// The number of resident bytes; `None` once the chunk is gone.
    pub length: Option<usize>,
    /// The digest of what was loaded; `None` in it for a chunk that is never
    /// written back.
    pub hash: OnceAwait<Option<DataHash>>,
}

impl UfoChunk {
    /// A chunk that is not gone has at least one byte.
    pub open spec fn wf(&self) -> bool {
        &&& self.offset.wf()
        &&& self.length != Some(0usize)
    }

    /// The number of resident bytes, 0 for a chunk that is gone.
    pub open spec fn spec_size(&self) -> usize {
        match self.length {
            Some(n) => n,
            None => 0,
        }
    }

    /// The chunk is one of the object: it has its identity, begins at a
    /// chunk boundary of its body and lies in its mapping.
    pub open spec fn belongs_to(&self, object: &UfoObject) -> bool {
        &&& self.ufo_id == object.id
        &&& self.offset.base_addr == object.mmap.base
        &&& self.offset.header_bytes == object.config.header_size_with_padding
        &&& self.offset.in_chunk(object.config.spec_load_size())
        &&& self.offset.absolute_offset_bytes + self.spec_size() <= object.mmap.len
    }

    /// The record of `length` bytes of `object` that were loaded at
    /// `offset`. Its digest is not published yet.
    pub fn new(object: &UfoObject, offset: UfoOffset, length: usize) -> (r: UfoChunk)
        requires
            offset.absolute_offset_bytes + length <= object.mmap.len,
        ensures
            r.ufo_id == object.id,
            r.offset == offset,
            r.length == (if length == 0 {
                None
            } else {
                Some(length)
            }),
            r.hash.value is None,
    {
        UfoChunk {
            ufo_id: object.id,
            offset,
            length: if length == 0 {
                None
            } else {
                Some(length)
            },
            hash: OnceAwait::new(),
        }
    }

    pub fn offset(&self) -> (r: &UfoOffset)
        ensures
            *r == self.offset,
    {
        &self.offset
    }

    /// Publishes the digest of what was loaded, or that there is none. Only
    /// the first call counts.
    pub fn hash_fulfiller(&mut self, digest: Option<DataHash>)
        ensures
            final(self).ufo_id == old(self).ufo_id,
            final(self).offset == old(self).offset,
            final(self).length == old(self).length,
            final(self).hash.value == (if old(self).hash.value is Some {
                old(self).hash.value
            } else {
                Some(digest)
            }),
    {
        self.hash.try_init(digest);
    }

    /// Marks the chunk as gone.
    pub fn mark_freed(&mut self)
        ensures
            final(self).length is None,
            final(self).ufo_id == old(self).ufo_id,
            final(self).offset == old(self).offset,
            final(self).hash == old(self).hash,
    {
        self.length = None;
    }

    pub fn ufo_id(&self) -> (r: UfoId)
        ensures
            r == self.ufo_id,
    {
        self.ufo_id
    }

    /// The number of resident bytes, 0 for a chunk that is gone.
    pub fn size(&self) -> (r: usize)
        ensures
            r == self.spec_size(),
    {
        match self.length {
            Some(n) => n,
            None => 0,
        }
    }

    pub fn size_in_pages(&self) -> (r: SizeInPages)
        ensures
            r.0 == self.spec_size(),
    {
        SizeInPages(self.size())
    }

    /// What the first step of giving the chunk back answers, given the
    /// object, if it still lives, the contents of its store, the length of
    /// the scratch mapping and the page size.
    pub open spec fn spec_begin_free(
        &self,
        object: Option<&UfoObject>,
        region: Seq<u8>,
        pivot_len: usize,
        page_size: usize,
    ) -> Result<(), FreeErr> {
        if self.length is None || object is None || object->0.config.read_only {
            Ok(())
        } else {
            let locks = object->0.writeback_util.chunk_locks;
            match locks.spec_lock(region, self.offset.chunk_number).0 {
                Err(e) => Err(FreeErr::Lock(e)),
                Ok(_) => if spec_up_to_nearest(self.spec_size() as int, page_size as int)
                    > pivot_len {
                    Err(FreeErr::PivotTooSmall)
                } else {
                    Ok(())
                },
            }
        }
    }

    /// The first step of giving the chunk back. A chunk that is gone, or
    /// whose object is, needs nothing. A chunk of an object that is never
    /// written back is marked as gone, and its pages are to be dropped. For
    /// any other chunk the lock is taken, and its pages are to be moved to
    /// the scratch mapping, which must be long enough for them.
    pub fn begin_free(
        &mut self,
        object: Option<&UfoObject>,
        region: &mut [u8],
        pivot_len: usize,
        page_size: usize,
    ) -> (r: Result<FreeAction, FreeErr>)
        requires
            page_size > 0,
            old(self).wf(),
            object is Some ==> {
                &&& object->0.wf()
                &&& old(self).belongs_to(object->0)
                &&& object->0.writeback_util.fits(old(region)@)
            },
        ensures
            begun_free(
                *old(self),
                *final(self),
                object,
                old(region)@,
                final(region)@,
                pivot_len,
                page_size,
                r,
            ),
    {
        let length_bytes = match self.length {
            Some(n) => n,
            None => { return Ok(FreeAction::Nothing); },
        };
        let obj = match object {
            Some(o) => o,
            None => { return Ok(FreeAction::Nothing); },
        };
        let addr: usize = obj.mmap.as_ptr() + self.offset.absolute_offset();
        if !obj.config.should_try_writeback() {
            self.length = None;
            return Ok(FreeAction::Discard { addr, len: length_bytes });
        }
        let chunk_number = self.offset.chunk_number();
        let guard = match obj.writeback_util.chunk_locks.lock_uncontended(region, chunk_number) {
            Ok(g) => g,
            Err(e) => { return Err(FreeErr::Lock(e)); },
        };
        let fits = match checked_up_to_nearest(length_bytes, page_size) {
            Some(pages) => if pages <= pivot_len {
                Some(pages)
            } else {
                None
            },
            None => None,
        };
        match fits {
            Some(pages) => Ok(FreeAction::Snapshot { guard, addr, pages }),
            None => {
                proof {
                    lemma_take_then_release(
                        obj.writeback_util.chunk_locks,
                        old(region)@,
                        chunk_number as int,
                    );
                }
                obj.writeback_util.chunk_locks.unlock(region, &guard);
                Err(FreeErr::PivotTooSmall)
            },
        }
    }
}

/// Whether moved pages are written to the store: they were loaded with a
/// digest, and their own differs from it.
pub open spec fn spec_is_dirty(published: Option<DataHash>, calculated: DataHash) -> bool {
    published is Some && published->0@ != calculated@
}

impl UfoChunk {
    /// The contents of the store after the second step of giving the chunk
    /// back, where the moved pages hold `data`: the lock is given back, and
    /// where the digest of the data differs from the published one and the
    /// data has the length of a chunk, the data is written.
    pub open spec fn spec_freed_region(
        &self,
        object: &UfoObject,
        region: Seq<u8>,
        data: Seq<u8>,
    ) -> Seq<u8> {
        let store = object.writeback_util;
        let off_head = self.offset.spec_offset_from_header();
        let released = store.chunk_locks.spec_released(region, self.offset.chunk_number as int);
        if self.hash.value is Some && self.hash.value->0 is Some && self.hash.value->0->0@
            != spec_hash_function(data) && store.spec_writeback_result(
            off_head,
            data.len() as int,
        ) is Ok {
            store.spec_written(released, off_head, data)
        } else {
            released
        }
    }

    /// Writes `data`, the contents of the chunk, to the store of its object
    /// if the digest `calculated` of the data differs from the digest
    /// `published` when the chunk was loaded. Says whether the data is in
    /// the store now; it is not where its length is not that of a chunk.
    pub fn writeback_if_changed(
        &self,
        object: &UfoObject,
        region: &mut [u8],
        published: &Option<DataHash>,
        calculated: &DataHash,
        data: &[u8],
    ) -> (written: bool)
        requires
            self.wf(),
            object.wf(),
            self.belongs_to(object),
            object.writeback_util.fits(old(region)@),
        ensures
            written == (spec_is_dirty(*published, *calculated)
                && object.writeback_util.spec_writeback_result(
                self.offset.spec_offset_from_header(),
                data@.len() as int,
            ) is Ok),
            final(region)@ == (if written {
                object.writeback_util.spec_written(
                    old(region)@,
                    self.offset.spec_offset_from_header(),
                    data@,
                )
            } else {
                old(region)@
            }),
    {
        match published {
            Some(hash) => {
                if same_hash(hash, calculated) {
                    false
                } else {
                    object.writeback_util.writeback(region, &self.offset, data).is_ok()
                }
            },
            None => false,
        }
    }

    /// The second step of giving the chunk back, after its pages were moved
    /// to the scratch mapping, whose contents are `pivot`. The digest of the
    /// moved bytes is compared with the published one and the lock is given
    /// back; the bytes are written to the store if the digests differ; the
    /// chunk is marked as gone. Returns the number of bytes that were freed.
    ///
    /// Where no digest was published yet, the lock is given back and the
    /// chunk stays as it is.
    pub fn free_and_writeback_dirty(
        &mut self,
        object: &UfoObject,
        region: &mut [u8],
        guard: BitGuard,
        pivot: &[u8],
    ) -> (r: Result<usize, FreeErr>)
        requires
            old(self).wf(),
            old(self).length is Some,
            object.wf(),
            old(self).belongs_to(object),
            object.writeback_util.fits(old(region)@),
            guard@ == old(self).offset.chunk_number,
            guard@ < object.writeback_util.chunk_ct,
            pivot@.len() >= old(self).spec_size(),
        ensures
            final(self).ufo_id == old(self).ufo_id,
            final(self).offset == old(self).offset,
            final(self).hash == old(self).hash,
            old(self).hash.value is None ==> {
                &&& r == Err::<usize, FreeErr>(FreeErr::DigestPending)
                &&& final(self).length == old(self).length
                &&& final(region)@ == object.writeback_util.chunk_locks.spec_released(
                    old(region)@,
                    old(self).offset.chunk_number as int,
                )
            },
            old(self).hash.value is Some ==> {
                &&& r == Ok::<usize, FreeErr>(old(self).spec_size())
                &&& final(self).length is None
                &&& final(region)@ == old(self).spec_freed_region(
                    object,
                    old(region)@,
                    pivot@.subrange(0, old(self).spec_size() as int),
                )
            },
    {
        let length_bytes = self.size();
        let store = &object.writeback_util;
        let dirty: Option<DataHash> = match self.hash.get() {
            None => {
                store.chunk_locks.unlock(region, &guard);
                return Err(FreeErr::DigestPending);
            },
            Some(published) => *published,
        };
        let data = slice_between(pivot, 0, length_bytes);
        let calculated_hash = hash_function(data);
        store.chunk_locks.unlock(region, &guard);
        let written = self.writeback_if_changed(object, region, &dirty, &calculated_hash, data);
        self.length = None;
        Ok(length_bytes)
    }
}

impl UfoChunk {
    /// The record of the chunk that was just brought in for `window`, whose
    /// bytes are the first of `raw_data`. The digest of these bytes is
    /// published in it at once; for an object that is never written back
    /// it is published that there is none.
    pub fn loaded(object: &UfoObject, window: &crate::ufo_objects::LoadWindow, raw_data: &[u8]) -> (r:
        UfoChunk)
        requires
            object.wf(),
            window.offset.wf(),
            window.offset.base_addr == object.mmap.base,
            window.offset.header_bytes == object.config.header_size_with_padding,
            window.offset.at_chunk_start(object.config.spec_load_size()),
            window.offset.absolute_offset_bytes + window.populate_size <= object.mmap.len,
            window.populate_size <= raw_data@.len(),
        ensures
            r.wf(),
            r.belongs_to(object),
            r.ufo_id == object.id,
            r.offset == window.offset,
            r.spec_size() == window.populate_size,
            r.hash.value == Some(
                if object.config.read_only {
                    None::<DataHash>
                } else {
                    r.hash.value->0
                },
            ),
            !object.config.read_only ==> r.hash.value->0 is Some && r.hash.value->0->0@
                == spec_hash_function(raw_data@.subrange(0, window.populate_size as int)),
    {
        let mut chunk = UfoChunk::new(object, window.offset, window.populate_size);
        proof {
            let load = object.config.spec_load_size();
            let c = window.offset.chunk_number as int;
            assert((c + 1) * load == c * load + load) by (nonlinear_arith);
            assert(load > 0) by (nonlinear_arith)
                requires
                    load == object.config.elements_loaded_at_once * object.config.stride,
                    object.config.elements_loaded_at_once > 0,
                    object.config.stride > 0,
            ;
        }
        if !object.config.should_try_writeback() {
            chunk.hash_fulfiller(None);
        } else {
            let calculated_hash = hash_function(slice_between(raw_data, 0, window.populate_size));
            chunk.hash_fulfiller(Some(calculated_hash));
        }
        chunk
    }
}

/// What gives chunks back: it holds the scratch mapping, which grows to the
/// pages of the largest chunk that it has seen.
#[derive(Debug)]
pub struct ChunkFreer {
    pub pivot: Option<BaseMmap>,
}

impl ChunkFreer {
    /// The number of bytes of the scratch mapping, 0 where there is none.
    pub open spec fn spec_pivot_len(&self) -> usize {
        match self.pivot {
            Some(p) => p.len,
            None => 0,
        }
    }

    /// What is done with the scratch mapping before it takes `required`
    /// bytes.
    pub open spec fn spec_pivot_action(&self, required: usize) -> PivotAction {
        match self.pivot {
            None => PivotAction::Create(required),
            Some(p) => if p.len < required {
                PivotAction::Grow(required)
            } else {
                PivotAction::Keep
            },
        }
    }

    /// A freer without a scratch mapping.
    pub fn new() -> (r: ChunkFreer)
        ensures
            r.pivot is None,
    {
        ChunkFreer { pivot: None }
    }

    /// What is done with the scratch mapping before the chunk `to_fit` is
    /// moved to it: it is made where there is none, and made longer where
    /// it is shorter than the pages of the chunk.
    pub fn ensure_capcity(&self, to_fit: &UfoChunk, page_size: usize) -> (r: PivotAction)
        requires
            page_size > 0,
            spec_up_to_nearest(to_fit.spec_size() as int, page_size as int) <= usize::MAX,
        ensures
            r == self.spec_pivot_action(
                spec_up_to_nearest(to_fit.spec_size() as int, page_size as int) as usize,
            ),
    {
        let required_size = to_fit.size_in_pages().size_as_multiple_of_pages(page_size);
        match &self.pivot {
            None => PivotAction::Create(required_size),
            Some(pivot) => {
                if pivot.len < required_size {
                    PivotAction::Grow(required_size)
                } else {
                    PivotAction::Keep
                }
            },
        }
    }

    /// Takes `pivot` as the scratch mapping.
    pub fn set_pivot(&mut self, pivot: BaseMmap)
        ensures
            final(self).pivot == Some(pivot),
    {
        self.pivot = Some(pivot);
    }

    /// The first step of giving `chunk` back: nothing for a chunk without
    /// resident bytes, and what `UfoChunk::begin_free` says else, with the
    /// scratch mapping that this freer holds.
    pub fn free_chunk(
        &mut self,
        chunk: &mut UfoChunk,
        object: Option<&UfoObject>,
        region: &mut [u8],
        page_size: usize,
    ) -> (r: Result<FreeAction, FreeErr>)
        requires
            page_size > 0,
            old(chunk).wf(),
            object is Some ==> {
                &&& object->0.wf()
                &&& old(chunk).belongs_to(object->0)
                &&& object->0.writeback_util.fits(old(region)@)
            },
        ensures
            final(self).pivot == old(self).pivot,
            begun_free(
                *old(chunk),
                *final(chunk),
                object,
                old(region)@,
                final(region)@,
                old(self).spec_pivot_len(),
                page_size,
                r,
            ),
    {
        if 0 == chunk.size() {
            return Ok(FreeAction::Nothing);
        }
        let pivot_len: usize = match &self.pivot {
            Some(p) => p.len,
            None => 0,
        };
        chunk.begin_free(object, region, pivot_len, page_size)
    }
}

/// A whole chunk that was changed while it was resident is read back from
/// the store, after it was given back, as it was when it left: its digest
/// differs from the published one, so its bytes were written.
pub proof fn lemma_changed_chunk_reads_back(
    chunk: UfoChunk,
    object: UfoObject,
    region: Seq<u8>,
    data: Seq<u8>,
)
    requires
        object.wf(),
        chunk.wf(),
        chunk.belongs_to(&object),
        object.writeback_util.fits(region),
        chunk.offset.at_chunk_start(object.config.spec_load_size()),
        chunk.offset.chunk_number < object.writeback_util.chunk_ct,
        data.len() == object.writeback_util.chunk_size,
        chunk.hash.value is Some,
        chunk.hash.value->0 is Some,
        chunk.hash.value->0->0@ != spec_hash_function(data),
    ensures
        object.writeback_util.spec_readback(
            chunk.spec_freed_region(&object, region, data),
            chunk.offset.spec_offset_from_header(),
        ) == Some(data),
{
    let store = object.writeback_util;
    let number = chunk.offset.chunk_number as int;
    let released = store.chunk_locks.spec_released(region, number);
    crate::writeback::lemma_chunk_place(store, number);
    crate::writeback::lemma_readback_after_writeback(store, released, number, data);
}

/// A chunk that was not changed while it was resident leaves the store as
/// it is when it is given back, but for its lock.
pub proof fn lemma_unchanged_chunk_is_not_written(
    chunk: UfoChunk,
    object: UfoObject,
    region: Seq<u8>,
    data: Seq<u8>,
)
    requires
        chunk.hash.value is Some,
        chunk.hash.value->0 is Some ==> chunk.hash.value->0->0@ == spec_hash_function(data),
    ensures
        chunk.spec_freed_region(&object, region, data)
            == object.writeback_util.chunk_locks.spec_released(
            region,
            chunk.offset.chunk_number as int,
        ),
{
}

} // verus!
