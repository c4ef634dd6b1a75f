//! The backing store of one object: a byte region that holds a presence
//! bitmap with one bit per chunk, the bytes of the chunk locks, as many as
//! the bitmap has, and a body that mirrors the object's data chunk for chunk.

use vstd::prelude::*;
use crate::bitwise_spinlock::{spec_bit, Bitlock};
use crate::errors::UfoConfigErr;
use crate::math::{checked_up_to_nearest, lemma_round_up, spec_up_to_nearest};
use crate::ufo_objects::{UfoId, UfoObjectConfig, UfoOffset};

verus! {

/// Why a chunk was not written to the store.
#[derive(Debug, Clone, Copy, PartialEq, Eq, Structural)]
pub enum WritebackErr {
    /// The offset from the header, which lies at or beyond the end of the
    /// body.
    OutOfRange(usize),
    /// The data has not the length of a chunk: the length that was expected,
    /// then the length that was given.
    WrongSize(usize, usize),
}

/// The layout of the store of one object.
#[derive(Debug, Clone, Copy, PartialEq, Eq, Structural)]
pub struct UfoFileWriteback {
    pub ufo_id: UfoId,
    pub chunk_ct: usize,
    pub chunk_locks: Bitlock,
    pub chunk_size: usize,
    pub total_bytes: usize,
    /// The bytes of the bitmap and of the locks together.
    pub header_bytes: usize,
}

/// The number of chunks of an object: its elements divided by the elements of
/// one load, rounded up.
pub open spec fn spec_chunk_ct(cfg: UfoObjectConfig) -> int {
    if cfg.element_ct % cfg.elements_loaded_at_once == 0 {
        cfg.element_ct as int / cfg.elements_loaded_at_once as int
    } else {
        cfg.element_ct as int / cfg.elements_loaded_at_once as int + 1
    }
}

/// The number of bytes of the bitmap: one bit per chunk, rounded up to whole
/// pages.
pub open spec fn spec_bitmap_bytes(cfg: UfoObjectConfig, page_size: int) -> int {
    spec_up_to_nearest((spec_chunk_ct(cfg) + 7) / 8, page_size)
}

/// The number of bytes of the whole store.
pub open spec fn spec_store_bytes(cfg: UfoObjectConfig, page_size: int) -> int {
    2 * spec_bitmap_bytes(cfg, page_size) + spec_chunk_ct(cfg) * cfg.spec_load_size()
}

impl UfoFileWriteback {
    /// The number of bytes of the bitmap, and of the locks.
    pub open spec fn spec_bitmap_bytes(&self) -> int {
        self.header_bytes as int / 2
    }

    /// The number of bytes of the body.
    pub open spec fn spec_body_bytes(&self) -> int {
        self.total_bytes - self.header_bytes
    }

    /// The parts of the store lie one after the other: the bitmap with a bit
    /// for every chunk, the locks, which take as many bytes, and the body, a
    /// whole number of chunks.
    pub open spec fn wf(&self) -> bool {
        &&& self.chunk_size > 0
        &&& self.header_bytes % 2 == 0
        &&& self.chunk_ct + 7 <= 8 * self.spec_bitmap_bytes() + 7
        &&& (self.chunk_ct + 7) / 8 <= self.spec_bitmap_bytes()
        &&& self.header_bytes <= self.total_bytes
        &&& self.spec_body_bytes() == self.chunk_ct * self.chunk_size
        &&& self.chunk_locks.base == self.spec_bitmap_bytes()
        &&& self.chunk_locks.size_bits == self.chunk_ct
        &&& self.chunk_locks.wf()
    }

    /// The region is the store's.
    pub open spec fn fits(&self, region: Seq<u8>) -> bool {
        region.len() == self.total_bytes
    }

    /// Whether the bitmap in the region says that `chunk` was written.
    pub open spec fn spec_present(&self, region: Seq<u8>, chunk: int) -> bool {
        region[chunk / 8] & spec_bit(chunk % 8) != 0
    }

    /// What the store holds for the chunk that begins `off_head` bytes after
    /// the header, if the bitmap says that it was written.
    pub open spec fn spec_readback(&self, region: Seq<u8>, off_head: int) -> Option<Seq<u8>> {
        let chunk = off_head / (self.chunk_size as int);
        if chunk < self.chunk_ct && off_head + self.chunk_size <= self.spec_body_bytes()
            && self.spec_present(region, chunk) {
            Some(
                region.subrange(
                    self.header_bytes + off_head,
                    self.header_bytes + off_head + self.chunk_size,
                ),
            )
        } else {
            None
        }
    }

    /// The number of bytes that a chunk written at `off_head` must have: a
    /// whole chunk, or what is left of the store.
    pub open spec fn spec_expected_size(&self, off_head: int) -> int {
        if self.chunk_size <= self.spec_body_bytes() - off_head {
            self.chunk_size as int
        } else {
            self.spec_body_bytes() - off_head
        }
    }

    /// The region after `data` was copied to the place `off_head` bytes
    /// after the header, before the bitmap is touched.
    pub open spec fn spec_copied(&self, region: Seq<u8>, off_head: int, data: Seq<u8>) -> Seq<u8> {
        let at = self.header_bytes + off_head;
        Seq::new(
            region.len(),
            |i: int|
                if at <= i < at + data.len() {
                    data[i - at]
                } else {
                    region[i]
                },
        )
    }

    /// The region after `data` was written for the chunk of `off_head`: the
    /// bytes copied, then the chunk's bit set.
    pub open spec fn spec_written(&self, region: Seq<u8>, off_head: int, data: Seq<u8>) -> Seq<u8> {
        let chunk = off_head / (self.chunk_size as int);
        let copied = self.spec_copied(region, off_head, data);
        copied.update(chunk / 8, copied[chunk / 8] | spec_bit(chunk % 8))
    }

    /// What `writeback` answers.
    pub open spec fn spec_writeback_result(&self, off_head: int, len: int) -> Result<
        (),
        WritebackErr,
    > {
        if off_head >= self.spec_body_bytes() {
            Err(WritebackErr::OutOfRange(off_head as usize))
        } else if len != self.spec_expected_size(off_head) {
            Err(WritebackErr::WrongSize(self.spec_expected_size(off_head) as usize, len as usize))
        } else {
            Ok(())
        }
    }

    /// The layout of the store of the object `ufo_id` with the configuration
    /// `cfg`, on a machine with pages of `page_size` bytes. A store that the
    /// machine word cannot measure is rejected.
    pub fn new(ufo_id: UfoId, cfg: &UfoObjectConfig, page_size: usize) -> (r: Result<
        UfoFileWriteback,
        UfoConfigErr,
    >)
        requires
            cfg.wf(),
            page_size > 0,
        ensures
            r is Ok <==> spec_store_bytes(*cfg, page_size as int) <= usize::MAX,
            r is Err ==> r->Err_0 == UfoConfigErr::SizeOverflow,
            r is Ok ==> {
                let store = r->Ok_0;
                &&& store.wf()
                &&& store.ufo_id == ufo_id
                &&& store.chunk_ct == spec_chunk_ct(*cfg)
                &&& store.chunk_size == cfg.spec_load_size()
                &&& store.header_bytes == 2 * spec_bitmap_bytes(*cfg, page_size as int)
                &&& store.total_bytes == spec_store_bytes(*cfg, page_size as int)
                &&& store.chunk_locks.fresh(
                    spec_bitmap_bytes(*cfg, page_size as int) as usize,
                    store.chunk_ct,
                )
                &&& store.chunk_ct * cfg.elements_loaded_at_once >= cfg.element_ct
            },
    {
        let per_load = cfg.elements_loaded_at_once;
        proof {
            let whole = cfg.element_ct as int / per_load as int;
            let rest = cfg.element_ct as int % per_load as int;
            vstd::arithmetic::div_mod::lemma_fundamental_div_mod(
                cfg.element_ct as int,
                per_load as int,
            );
            assert(rest > 0 ==> whole < cfg.element_ct) by (nonlinear_arith)
                requires
                    cfg.element_ct == per_load * whole + rest,
                    per_load >= 1,
                    whole >= 0,
            ;
        }
        let chunk_ct: usize = if cfg.element_ct % per_load == 0 {
            cfg.element_ct / per_load
        } else {
            cfg.element_ct / per_load + 1
        };
        let chunk_size = cfg.load_size();
        let bits_bytes: usize = chunk_ct / 8 + (if chunk_ct % 8 == 0 {
            0
        } else {
            1
        });
        assert(bits_bytes == (chunk_ct + 7) / 8);
        proof {
            lemma_round_up(bits_bytes as int, page_size as int);
            vstd::arithmetic::div_mod::lemma_fundamental_div_mod(
                cfg.element_ct as int,
                per_load as int,
            );
            let whole = cfg.element_ct as int / per_load as int;
            let rest = cfg.element_ct as int % per_load as int;
            assert(chunk_ct * per_load >= cfg.element_ct) by (nonlinear_arith)
                requires
                    cfg.element_ct == per_load * whole + rest,
                    0 <= rest,
                    rest < per_load,
                    chunk_ct == whole + 1 || (chunk_ct == whole && rest == 0),
            ;
            assert(chunk_ct * chunk_size >= 0) by (nonlinear_arith)
                requires
                    chunk_ct >= 0,
                    chunk_size >= 0,
            ;
            assert(chunk_ct * chunk_size >= chunk_ct) by (nonlinear_arith)
                requires
                    chunk_ct >= 0,
                    chunk_size >= 1,
            ;
        }
        let bitmap_bytes = match checked_up_to_nearest(bits_bytes, page_size) {
            Some(n) => n,
            None => { return Err(UfoConfigErr::SizeOverflow); },
        };
        let header_bytes = match bitmap_bytes.checked_add(bitmap_bytes) {
            Some(n) => n,
            None => { return Err(UfoConfigErr::SizeOverflow); },
        };
        let data_bytes = match chunk_ct.checked_mul(chunk_size) {
            Some(n) => n,
            None => { return Err(UfoConfigErr::SizeOverflow); },
        };
        let total_bytes = match header_bytes.checked_add(data_bytes) {
            Some(n) => n,
            None => { return Err(UfoConfigErr::SizeOverflow); },
        };
        let chunk_locks = Bitlock::new(bitmap_bytes, chunk_ct);
        Ok(
            UfoFileWriteback {
                ufo_id,
                chunk_ct,
                chunk_locks,
                chunk_size,
                total_bytes,
                header_bytes,
            },
        )
    }

    /// The number of bytes of the body.
    pub fn body_bytes(&self) -> (r: usize)
        requires
            self.wf(),
        ensures
            r == self.spec_body_bytes(),
    {
        self.total_bytes - self.header_bytes
    }

    /// Copies `data` into the body at the place of `offset`, then sets the
    /// bit of the chunk in the bitmap. The data must be a whole chunk, or
    /// what is left of the store.
    pub fn writeback(&self, region: &mut [u8], offset: &UfoOffset, data: &[u8]) -> (r: Result<
        (),
        WritebackErr,
    >)
        requires
            self.wf(),
            self.fits(old(region)@),
            offset.wf(),
            offset.in_chunk(self.chunk_size as int),
        ensures
            r == self.spec_writeback_result(offset.spec_offset_from_header(), data@.len() as int),
            r is Ok ==> final(region)@ == self.spec_written(
                old(region)@,
                offset.spec_offset_from_header(),
                data@,
            ),
            r is Err ==> final(region)@ == old(region)@,
    {
        let off_head = offset.offset_from_header();
        if off_head >= self.body_bytes() {
            return Err(WritebackErr::OutOfRange(off_head));
        }
        let chunk_number = offset.chunk_number();
        let writeback_offset = self.header_bytes + off_head;
        proof {
            crate::math::lemma_quotient_between_multiples(
                off_head as int,
                self.chunk_size as int,
                chunk_number as int,
            );
            assert(chunk_number < self.chunk_ct) by (nonlinear_arith)
                requires
                    chunk_number * self.chunk_size <= off_head,
                    off_head < self.chunk_ct * self.chunk_size,
                    self.chunk_size > 0,
            ;
        }
        let chunk_byte: usize = chunk_number / 8;
        let shift: u8 = (chunk_number % 8) as u8;
        let chunk_bit: u8 = 1u8 << shift;
        let remaining = self.total_bytes - writeback_offset;
        let expected_size: usize = if self.chunk_size <= remaining {
            self.chunk_size
        } else {
            remaining
        };
        if data.len() != expected_size {
            return Err(WritebackErr::WrongSize(expected_size, data.len()));
        }
        let mut i: usize = 0;
        while i < expected_size
            invariant
                i <= expected_size,
                expected_size == data@.len(),
                writeback_offset + expected_size <= self.total_bytes,
                region@.len() == self.total_bytes,
                forall|j: int|
                    0 <= j < region@.len() ==> region@[j] == if writeback_offset <= j
                        < writeback_offset + i {
                        data@[j - writeback_offset]
                    } else {
                        old(region)@[j]
                    },
            decreases expected_size - i,
        {
            region[writeback_offset + i] = data[i];
            i += 1;
        }
        assert(region@ =~= self.spec_copied(old(region)@, off_head as int, data@));
        let bits: u8 = region[chunk_byte];
        region[chunk_byte] = bits | chunk_bit;
        Ok(())
    }

    /// The bytes that the store holds for the chunk at `offset`, if the
    /// bitmap says that the chunk was written.
    pub fn try_readback<'a>(&self, region: &'a [u8], offset: &UfoOffset) -> (r: Option<&'a [u8]>)
        requires
            self.wf(),
            self.fits(region@),
            offset.wf(),
        ensures
            r is Some <==> self.spec_readback(region@, offset.spec_offset_from_header()) is Some,
            r is Some ==> r->0@ == self.spec_readback(
                region@,
                offset.spec_offset_from_header(),
            )->0,
    {
        let off_head = offset.offset_from_header();
        let chunk_number: usize = off_head / self.chunk_size;
        let body = self.body_bytes();
        if chunk_number >= self.chunk_ct || off_head > body || self.chunk_size > body - off_head {
            return None;
        }
        let readback_offset = self.header_bytes + off_head;
        let chunk_byte: usize = chunk_number / 8;
        let shift: u8 = (chunk_number % 8) as u8;
        let chunk_bit: u8 = 1u8 << shift;
        let is_written = region[chunk_byte] & chunk_bit != 0;
        if is_written {
            let end: usize = readback_offset + self.chunk_size;
            Some(slice_between(region, readback_offset, end))
        } else {
            None
        }
    }

    /// Returns the store to the state in which nothing was written: every
    /// byte of the region, bitmap, locks and body, reads 0.
    pub fn reset(&self, region: &mut [u8])
        requires
            self.fits(old(region)@),
        ensures
            final(region)@ == Seq::new(old(region)@.len(), |i: int| 0u8),
    {
        let n = region.len();
        let mut i: usize = 0;
        while i < n
            invariant
                i <= n,
                n == region@.len(),
                region@.len() == old(region)@.len(),
                forall|j: int| 0 <= j < i ==> region@[j] == 0u8,
            decreases n - i,
        {
            region[i] = 0;
            i += 1;
        }
        assert(region@ =~= Seq::new(old(region)@.len(), |i: int| 0u8));
    }
}

/// A chunk that was written is read back as it was written.
pub proof fn lemma_readback_after_writeback(
    store: UfoFileWriteback,
    region: Seq<u8>,
    chunk: int,
    data: Seq<u8>,
)
    requires
        store.wf(),
        store.fits(region),
        0 <= chunk < store.chunk_ct,
        data.len() == store.chunk_size,
    ensures
        store.spec_writeback_result(chunk * store.chunk_size, data.len() as int) is Ok,
        store.spec_readback(
            store.spec_written(region, chunk * store.chunk_size, data),
            chunk * store.chunk_size,
        ) == Some(data),
{
    let size = store.chunk_size as int;
    let off_head = chunk * size;
    lemma_chunk_place(store, chunk);
    let at = store.header_bytes + off_head;
    let copied = store.spec_copied(region, off_head, data);
    let written = store.spec_written(region, off_head, data);
    let shift = (chunk % 8) as u8;
    let bit = spec_bit(chunk % 8);
    let before = copied[chunk / 8];
    assert((before | bit) & bit != 0) by (bit_vector)
        requires
            bit == 1u8 << shift,
            shift < 8,
    ;
    assert(written.subrange(at, at + size) =~= data);
}

/// After a reset nothing is read back.
pub proof fn lemma_reset_forgets(store: UfoFileWriteback, len: nat, off_head: int)
    requires
        store.wf(),
        len == store.total_bytes,
        off_head >= 0,
    ensures
        store.spec_readback(Seq::new(len, |i: int| 0u8), off_head) is None,
{
    let chunk = off_head / (store.chunk_size as int);
    let shift = (chunk % 8) as u8;
    let bit = spec_bit(chunk % 8);
    assert(0u8 & bit == 0) by (bit_vector);
    if chunk < store.chunk_ct {
        vstd::arithmetic::div_mod::lemma_div_pos_is_pos(off_head, store.chunk_size as int);
        assert(0 <= chunk / 8 < len);
    }
}

/// Writing one chunk leaves what is read back for every other chunk as it
/// was.
pub proof fn lemma_writeback_keeps_other_chunks(
    store: UfoFileWriteback,
    region: Seq<u8>,
    chunk: int,
    data: Seq<u8>,
    other: int,
)
    requires
        store.wf(),
        store.fits(region),
        0 <= chunk < store.chunk_ct,
        0 <= other < store.chunk_ct,
        other != chunk,
        data.len() == store.chunk_size,
    ensures
        store.spec_readback(
            store.spec_written(region, chunk * store.chunk_size, data),
            other * store.chunk_size,
        ) == store.spec_readback(region, other * store.chunk_size),
{
    let size = store.chunk_size as int;
    lemma_chunk_place(store, chunk);
    lemma_chunk_place(store, other);
    let at = store.header_bytes + chunk * size;
    let there = store.header_bytes + other * size;
    assert(there + size <= at || at + size <= there) by (nonlinear_arith)
        requires
            at == store.header_bytes + chunk * size,
            there == store.header_bytes + other * size,
            other != chunk,
            size > 0,
    ;
    let copied = store.spec_copied(region, chunk * size, data);
    let written = store.spec_written(region, chunk * size, data);
    let shift = (chunk % 8) as u8;
    let bit = spec_bit(chunk % 8);
    let other_shift = (other % 8) as u8;
    let other_bit = spec_bit(other % 8);
    if other / 8 == chunk / 8 {
        let before = copied[chunk / 8];
        assert(((before | bit) & other_bit != 0) == (before & other_bit != 0)) by (bit_vector)
            requires
                bit == 1u8 << shift,
                other_bit == 1u8 << other_shift,
                shift < 8,
                other_shift < 8,
                shift != other_shift,
        ;
    }
    assert(written.subrange(there, there + size) =~= region.subrange(there, there + size));
}

/// Where a chunk lies in the store: its bit in the bitmap, its bytes in the
/// body.
pub proof fn lemma_chunk_place(store: UfoFileWriteback, chunk: int)
    requires
        store.wf(),
        0 <= chunk < store.chunk_ct,
    ensures
        (chunk * store.chunk_size) / (store.chunk_size as int) == chunk,
        0 <= chunk * store.chunk_size,
        chunk * store.chunk_size + store.chunk_size <= store.spec_body_bytes(),
        store.spec_expected_size(chunk * store.chunk_size) == store.chunk_size,
        0 <= chunk / 8 < store.spec_bitmap_bytes(),
        store.spec_bitmap_bytes() <= store.header_bytes,
{
    let size = store.chunk_size as int;
    vstd::arithmetic::div_mod::lemma_div_multiples_vanish(chunk, size);
    assert(chunk * size == size * chunk) by (nonlinear_arith);
    assert(chunk * size + size <= store.chunk_ct * size && 0 <= chunk * size) by (nonlinear_arith)
        requires
            0 <= chunk < store.chunk_ct,
            size > 0,
    ;
}

/// The part of `s` from `from` up to `to`.
pub fn slice_between<'a>(s: &'a [u8], from: usize, to: usize) -> (r: &'a [u8])
    requires
        from <= to <= s@.len(),
    ensures
        r@ == s@.subrange(from as int, to as int),
{
    &s[from..to]
}

} // verus!
