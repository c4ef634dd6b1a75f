//! Object identities, object configurations and the layout arithmetic that
//! turns a faulting address into chunk coordinates.

use vstd::prelude::*;
use vstd::arithmetic::div_mod::lemma_fundamental_div_mod;
use std::collections::HashMap;
use crate::errors::UfoConfigErr;
use crate::mmap_wrapers::BaseMmap;
use crate::writeback::{spec_chunk_ct, UfoFileWriteback};
use crate::math::{
    checked_lcm, checked_up_to_nearest, down_to_nearest, lemma_lcm_is_common_multiple,
    lemma_quotient_between_multiples, lemma_round_down, lemma_round_up, lemma_sum_of_multiples,
    spec_down_to_nearest, spec_lcm, spec_up_to_nearest,
};

verus! {

broadcast use vstd::std_specs::hash::group_hash_axioms;

/// The identity of an object. 0 names no object.
#[derive(Debug, PartialEq, Eq, Copy, Clone, Hash, Structural)]
pub struct UfoId(pub u64);

impl UfoId {
    /// The identity that names no object.
    pub fn sentinel() -> (r: UfoId)
        ensures
            r == UfoId(0),
    {
        UfoId(0)
    }

    pub open spec fn spec_is_sentinel(&self) -> bool {
        self.0 == 0
    }

    /// Whether this identity names no object.
    #[verifier::when_used_as_spec(spec_is_sentinel)]
    pub fn is_sentinel(&self) -> (r: bool)
        ensures
            r == (self.0 == 0),
    {
        0 == self.0
    }
}

/// The source of fresh identities: a counter that wraps around.
#[derive(Debug)]
pub struct UfoIdGen {
    current: u64,
}

/// How many steps the wrapping counter takes from `from` until it stands on
/// `to`; a full round when the two are equal.
pub open spec fn steps_until(from: u64, to: u64) -> int {
    if to > from {
        to - from
    } else {
        to - from + 0x1_0000_0000_0000_0000
    }
}

/// Whether `id` can be given to a new object: it is not the sentinel and no
/// live object has it.
pub open spec fn id_is_free<V>(live: Map<u64, V>, id: u64) -> bool {
    id != 0 && !live.contains_key(id)
}

/// `id` is the first free identity that the wrapping counter reaches after
/// `current`.
pub open spec fn is_next_id<V>(live: Map<u64, V>, current: u64, id: u64) -> bool {
    &&& id_is_free(live, id)
    &&& forall|k: u64|
        0 < #[trigger] steps_until(current, k) < steps_until(current, id) ==> !id_is_free(live, k)
}

/// There is at most one first free identity.
pub proof fn lemma_next_id_is_unique<V>(live: Map<u64, V>, current: u64, a: u64, b: u64)
    requires
        is_next_id(live, current, a),
        is_next_id(live, current, b),
    ensures
        a == b,
{
    if a != b {
        assert(steps_until(current, a) != steps_until(current, b));
        assert(0 < steps_until(current, a) && 0 < steps_until(current, b));
    }
}

/// A finite set of identities that holds every identity but the sentinel has
/// at least 2^64 - 1 members.
pub proof fn lemma_some_id_is_free<V>(live: Map<u64, V>)
    requires
        live.dom().finite(),
        live.dom().len() < u64::MAX,
    ensures
        exists|id: u64| id_is_free(live, id),
{
    if !(exists|id: u64| id_is_free(live, id)) {
        let as_int = |k: u64| k as int;
        let image = live.dom().map(as_int);
        let all = vstd::set_lib::set_int_range(1, 0x1_0000_0000_0000_0000);
        vstd::set_lib::lemma_int_range(1, 0x1_0000_0000_0000_0000);
        live.dom().lemma_map_finite(as_int);
        vstd::set_lib::lemma_map_size_bound(live.dom(), image, as_int);
        assert forall|i: int| all.contains(i) implies image.contains(i) by {
            let k = i as u64;
            assert(!id_is_free(live, k));
            assert(live.dom().contains(k));
            assert(as_int(k) == i);
        }
        assert(all.subset_of(image));
        vstd::set_lib::lemma_len_subset(all, image);
    }
}

impl UfoIdGen {
    pub closed spec fn view(&self) -> u64 {
        self.current
    }

    /// A generator whose counter stands at 0.
    pub fn new() -> (r: UfoIdGen)
        ensures
            r@ == 0,
    {
        UfoIdGen { current: 0 }
    }

    /// The next free identity: the counter moves on, wrapping around, until
    /// it stands on an identity that is neither the sentinel nor held by a
    /// live object, and stays there.
    pub fn next<V>(&mut self, live: &HashMap<u64, V>) -> (id: UfoId)
        requires
            live@.dom().len() < u64::MAX,
        ensures
            is_next_id(live@, old(self)@, id.0),
            final(self)@ == id.0,
    {
        proof {
            lemma_some_id_is_free(live@);
        }
        let ghost target: u64 = choose|id: u64| id_is_free(live@, id);
        let ghost start: u64 = self.current;
        let ghost mut walked: int = 0;
        let mut n: u64 = self.current;
        loop
            invariant
                id_is_free(live@, target),
                start == old(self)@,
                0 <= walked < steps_until(start, target),
                walked == 0 ==> n == start,
                walked > 0 ==> steps_until(start, n) == walked,
                forall|k: u64| 0 < steps_until(start, k) <= walked ==> !id_is_free(live@, k),
            decreases steps_until(start, target) - walked,
        {
            n = n.wrapping_add(1);
            proof {
                walked = walked + 1;
            }
            if n != 0 && !live.contains_key(&n) {
                self.current = n;
                return UfoId(n);
            }
        }
    }
}

/// What a caller fixes of a family of objects, before their element counts
/// are known.
#[derive(Debug, Clone, Copy)]
pub struct UfoObjectConfigPrototype {
    pub header_size: usize,
    pub stride: usize,
    pub min_load_ct: Option<usize>,
    pub read_only: bool,
}

/// The layout of one object, computed once when it is allocated.
#[derive(Debug, Clone, Copy)]
pub struct UfoObjectConfig {
    pub header_size_with_padding: usize,
    pub header_size: usize,
    pub stride: usize,
    pub elements_loaded_at_once: usize,
    pub element_ct: usize,
    pub true_size: usize,
    pub read_only: bool,
}

/// The number of bytes that one load brings in: the least common multiple of
/// the page size and of the bytes of the smallest load that the caller
/// accepts.
pub open spec fn spec_load_bytes(page_size: nat, stride: nat, min_load_ct: nat) -> nat {
    spec_lcm(page_size, stride * min_load_ct)
}

/// The number of elements that one load brings in.
pub open spec fn spec_elements_per_load(page_size: nat, stride: nat, min_load_ct: nat) -> nat {
    spec_load_bytes(page_size, stride, min_load_ct) / stride
}

/// The smallest load that a caller accepts who names none: one element.
pub open spec fn spec_min_load(min_load_ct: Option<usize>) -> nat {
    match min_load_ct {
        Some(n) => n as nat,
        None => 1,
    }
}

/// None of the three quanta of a layout is 0.
pub open spec fn quanta_are_positive(page_size: nat, stride: nat, min_load_ct: nat) -> bool {
    page_size > 0 && stride > 0 && min_load_ct > 0
}

/// Every size of the layout fits the machine word.
pub open spec fn layout_fits(
    header_size: nat,
    element_ct: nat,
    stride: nat,
    min_load_ct: nat,
    page_size: nat,
) -> bool {
    &&& stride * element_ct <= usize::MAX
    &&& stride * min_load_ct <= usize::MAX
    &&& spec_up_to_nearest(header_size as int, page_size as int) + spec_up_to_nearest(
        (stride * element_ct) as int,
        page_size as int,
    ) <= usize::MAX
    &&& spec_load_bytes(page_size, stride, min_load_ct) <= usize::MAX
}

/// A load is a whole number of elements, of pages and of smallest loads, and
/// brings in at least the smallest load.
pub proof fn lemma_load_is_aligned(page_size: nat, stride: nat, min_load_ct: nat)
    requires
        quanta_are_positive(page_size, stride, min_load_ct),
    ensures
        spec_elements_per_load(page_size, stride, min_load_ct) * stride == spec_load_bytes(
            page_size,
            stride,
            min_load_ct,
        ),
        spec_load_bytes(page_size, stride, min_load_ct) % page_size == 0,
        spec_load_bytes(page_size, stride, min_load_ct) % (min_load_ct * stride) == 0,
        spec_elements_per_load(page_size, stride, min_load_ct) >= min_load_ct,
        spec_load_bytes(page_size, stride, min_load_ct) >= page_size,
{
    let sm = stride * min_load_ct;
    assert(sm > 0) by (nonlinear_arith)
        requires
            sm == stride * min_load_ct,
            stride > 0,
            min_load_ct > 0,
    ;
    assert(min_load_ct * stride == sm) by (nonlinear_arith)
        requires
            sm == stride * min_load_ct,
    ;
    lemma_lcm_is_common_multiple(page_size, sm);
    let l = spec_lcm(page_size, sm) as int;
    let k = l / sm as int;
    lemma_fundamental_div_mod(l, sm as int);
    assert(l == sm * k);
    assert(l == stride * (min_load_ct * k)) by (nonlinear_arith)
        requires
            l == sm * k,
            sm == stride * min_load_ct,
    ;
    vstd::arithmetic::div_mod::lemma_div_multiples_vanish(min_load_ct * k, stride as int);
    assert(stride * (min_load_ct * k) == (min_load_ct * k) * stride) by (nonlinear_arith);
    assert(l / stride as int == min_load_ct * k);
    assert(k >= 1) by (nonlinear_arith)
        requires
            l == sm * k,
            l >= sm,
            sm > 0,
    ;
    assert(min_load_ct * k >= min_load_ct) by (nonlinear_arith)
        requires
            k >= 1,
            min_load_ct > 0,
    ;
}

impl UfoObjectConfigPrototype {
    pub fn new_prototype(
        header_size: usize,
        stride: usize,
        min_load_ct: Option<usize>,
        read_only: bool,
    ) -> (r: UfoObjectConfigPrototype)
        ensures
            r.header_size == header_size,
            r.stride == stride,
            r.min_load_ct == min_load_ct,
            r.read_only == read_only,
    {
        UfoObjectConfigPrototype { header_size, stride, min_load_ct, read_only }
    }

    /// The layout of an object of `ct` elements of this family, on a machine
    /// with pages of `page_size` bytes.
    pub fn new_config(&self, ct: usize, page_size: usize) -> (r: Result<
        UfoObjectConfig,
        UfoConfigErr,
    >)
        ensures
            r == UfoObjectConfig::spec_new_config(
                self.header_size,
                ct,
                self.stride,
                self.read_only,
                self.min_load_ct,
                page_size,
            ),
    {
        UfoObjectConfig::new_config(
            self.header_size,
            ct,
            self.stride,
            self.read_only,
            self.min_load_ct,
            page_size,
        )
    }
}

impl UfoObjectConfig {
    /// The number of bytes that one load brings in.
    pub open spec fn spec_load_size(&self) -> int {
        self.elements_loaded_at_once * self.stride
    }

    /// The number of bytes of the body, padded to whole pages.
    pub open spec fn spec_body_size(&self) -> int {
        self.true_size - self.header_size_with_padding
    }

    /// The sizes of the layout agree with each other: a load is a positive
    /// number of bytes that the machine word holds, the header lies inside
    /// its padding, the body begins after it, and the elements lie inside the
    /// body, whose padding is less than one load.
    pub open spec fn wf(&self) -> bool {
        &&& self.stride > 0
        &&& self.elements_loaded_at_once > 0
        &&& self.spec_load_size() <= usize::MAX
        &&& self.header_size <= self.header_size_with_padding <= self.true_size
        &&& self.stride * self.element_ct <= self.spec_body_size()
        &&& self.element_ct == 0 ==> self.spec_body_size() == 0
        &&& self.element_ct > 0 ==> (self.spec_body_size() - 1) / self.spec_load_size()
            == (self.stride * self.element_ct - 1) / self.spec_load_size()
    }

    /// Every boundary of the layout lies on a page boundary.
    pub open spec fn page_aligned(&self, page_size: usize) -> bool {
        &&& page_size > 0
        &&& self.header_size_with_padding % page_size == 0
        &&& self.true_size % page_size == 0
        &&& self.spec_load_size() % (page_size as int) == 0
    }

    /// The layout that `new_config` computes, or the reason why there is
    /// none.
    pub open spec fn spec_new_config(
        header_size: usize,
        element_ct: usize,
        stride: usize,
        read_only: bool,
        min_load_ct: Option<usize>,
        page_size: usize,
    ) -> Result<UfoObjectConfig, UfoConfigErr> {
        let min_load = spec_min_load(min_load_ct);
        if !quanta_are_positive(page_size as nat, stride as nat, min_load) {
            Err(UfoConfigErr::ZeroQuantum)
        } else if !layout_fits(
            header_size as nat,
            element_ct as nat,
            stride as nat,
            min_load,
            page_size as nat,
        ) {
            Err(UfoConfigErr::SizeOverflow)
        } else {
            let header_size_with_padding = spec_up_to_nearest(header_size as int, page_size as int);
            Ok(
                UfoObjectConfig {
                    header_size_with_padding: header_size_with_padding as usize,
                    header_size,
                    stride,
                    elements_loaded_at_once: spec_elements_per_load(
                        page_size as nat,
                        stride as nat,
                        min_load,
                    ) as usize,
                    element_ct,
                    true_size: (header_size_with_padding + spec_up_to_nearest(
                        stride * element_ct,
                        page_size as int,
                    )) as usize,
                    read_only,
                },
            )
        }
    }

    /// The layout of an object with a header of `header_size` bytes and
    /// `element_ct` elements of `stride` bytes, loaded at least `min_load_ct`
    /// elements at a time, on a machine with pages of `page_size` bytes.
    ///
    /// A quantum of 0 and a size beyond the machine word are rejected.
    pub fn new_config(
        header_size: usize,
        element_ct: usize,
        stride: usize,
        read_only: bool,
        min_load_ct: Option<usize>,
        page_size: usize,
    ) -> (r: Result<UfoObjectConfig, UfoConfigErr>)
        ensures
            r == Self::spec_new_config(
                header_size,
                element_ct,
                stride,
                read_only,
                min_load_ct,
                page_size,
            ),
            r is Ok ==> r->Ok_0.wf() && r->Ok_0.page_aligned(page_size),
    {
        let min_load: usize = match min_load_ct {
            Some(n) => n,
            None => 1,
        };
        if page_size == 0 || stride == 0 || min_load == 0 {
            return Err(UfoConfigErr::ZeroQuantum);
        }
        let body_size = match stride.checked_mul(element_ct) {
            Some(n) => n,
            None => { return Err(UfoConfigErr::SizeOverflow); },
        };
        let min_bytes = match stride.checked_mul(min_load) {
            Some(n) => n,
            None => { return Err(UfoConfigErr::SizeOverflow); },
        };
        let header_size_with_padding = match checked_up_to_nearest(header_size, page_size) {
            Some(n) => n,
            None => {
                proof {
                    lemma_round_up((stride * element_ct) as int, page_size as int);
                }
                return Err(UfoConfigErr::SizeOverflow);
            },
        };
        let body_size_with_padding = match checked_up_to_nearest(body_size, page_size) {
            Some(n) => n,
            None => {
                proof {
                    lemma_round_up(header_size as int, page_size as int);
                }
                return Err(UfoConfigErr::SizeOverflow);
            },
        };
        let true_size = match header_size_with_padding.checked_add(body_size_with_padding) {
            Some(n) => n,
            None => { return Err(UfoConfigErr::SizeOverflow); },
        };
        let min_load_bytes = match checked_lcm(page_size, min_bytes) {
            Some(n) => n,
            None => { return Err(UfoConfigErr::SizeOverflow); },
        };
        let elements_loaded_at_once: usize = min_load_bytes / stride;
        proof {
            lemma_load_is_aligned(page_size as nat, stride as nat, min_load as nat);
            lemma_round_up(header_size as int, page_size as int);
            lemma_round_up(body_size as int, page_size as int);
            let load = min_load_bytes as int;
            assert(elements_loaded_at_once * stride == load);
            assert(load >= page_size);
            assert(header_size_with_padding as int % page_size as int == 0);
            assert(body_size_with_padding as int % page_size as int == 0);
            lemma_sum_of_multiples(
                header_size_with_padding as int,
                body_size_with_padding as int,
                page_size as int,
            );
            if element_ct == 0 {
                assert(body_size == 0) by (nonlinear_arith)
                    requires
                        body_size == stride * element_ct,
                        element_ct == 0,
                ;
            }
            if element_ct > 0 {
                assert(body_size > 0) by (nonlinear_arith)
                    requires
                        body_size == stride * element_ct,
                        stride > 0,
                        element_ct > 0,
                ;
                lemma_padding_stays_in_chunk(
                    body_size as int,
                    body_size_with_padding as int,
                    page_size as int,
                    load,
                );
            }
        }
        Ok(
            UfoObjectConfig {
                header_size_with_padding,
                header_size,
                stride,
                elements_loaded_at_once,
                element_ct,
                true_size,
                read_only,
            },
        )
    }

    /// Whether an evicted chunk of this object is compared with what was
    /// loaded and written back if it differs.
    pub fn should_try_writeback(&self) -> (r: bool)
        ensures
            r == !self.read_only,
    {
        !self.read_only
    }

    /// The number of bytes that one load brings in.
    pub fn load_size(&self) -> (r: usize)
        requires
            self.wf(),
        ensures
            r == self.spec_load_size(),
            r > 0,
    {
        assert(self.elements_loaded_at_once * self.stride > 0) by (nonlinear_arith)
            requires
                self.elements_loaded_at_once > 0,
                self.stride > 0,
        ;
        self.elements_loaded_at_once * self.stride
    }
}

/// Padding a body of whole elements to the next page boundary does not reach
/// into another load, when a load is a whole number of pages.
proof fn lemma_padding_stays_in_chunk(body: int, padded: int, page: int, load: int)
    requires
        body > 0,
        page > 0,
        load > 0,
        load % page == 0,
        padded == spec_up_to_nearest(body, page),
    ensures
        (padded - 1) / load == (body - 1) / load,
{
    lemma_round_up(body, page);
    let c = (body - 1) / load;
    lemma_fundamental_div_mod(body - 1, load);
    // body - 1 lies in the load that starts at c * load, whose end is a page boundary
    let end = load * c + load;
    assert(load * c <= body - 1 < end);
    let pages_per_load = load / page;
    lemma_fundamental_div_mod(load, page);
    assert(load == page * pages_per_load);
    assert(end == page * (pages_per_load * (c + 1))) by (nonlinear_arith)
        requires
            end == load * c + load,
            load == page * pages_per_load,
    ;
    // padded is the first page boundary at or after body, so it is at most end
    let pq = padded / page;
    lemma_fundamental_div_mod(padded, page);
    assert(padded == page * pq);
    assert(padded <= end) by (nonlinear_arith)
        requires
            padded == page * pq,
            end == page * (pages_per_load * (c + 1)),
            body <= end,
            padded - body < page,
            page > 0,
    ;
    assert(load * c <= padded - 1 < load * c + load);
    vstd::arithmetic::div_mod::lemma_fundamental_div_mod_converse(
        padded - 1,
        load,
        c,
        padded - 1 - load * c,
    );
}

/// A place in an object: a chunk and a byte offset from the start of the
/// mapping.
#[derive(Debug, Clone, Copy)]
pub struct UfoOffset {
    pub base_addr: usize,
    pub chunk_number: usize,
    pub stride: usize,
    pub header_bytes: usize,
    pub absolute_offset_bytes: usize,
}

impl UfoOffset {
    /// The place lies at or after the end of the padded header, at an address
    /// that the machine word holds.
    pub open spec fn wf(&self) -> bool {
        &&& self.stride > 0
        &&& self.header_bytes <= self.absolute_offset_bytes
        &&& self.base_addr + self.absolute_offset_bytes <= usize::MAX
    }

    pub open spec fn spec_offset_from_header(&self) -> int {
        self.absolute_offset_bytes - self.header_bytes
    }

    /// The place lies in the chunk that it names, where a chunk has
    /// `load_size` bytes.
    pub open spec fn in_chunk(&self, load_size: int) -> bool {
        self.chunk_number * load_size <= self.spec_offset_from_header() < (self.chunk_number + 1)
            * load_size
    }

    /// The place is the first byte of the chunk that it names.
    pub open spec fn at_chunk_start(&self, load_size: int) -> bool {
        self.spec_offset_from_header() == self.chunk_number * load_size
    }

    /// The number of bytes from the start of the mapping.
    pub fn absolute_offset(&self) -> (r: usize)
        ensures
            r == self.absolute_offset_bytes,
    {
        self.absolute_offset_bytes
    }

    /// The number of bytes from the end of the padded header.
    pub fn offset_from_header(&self) -> (r: usize)
        requires
            self.wf(),
        ensures
            r == self.spec_offset_from_header(),
    {
        self.absolute_offset_bytes - self.header_bytes
    }

    /// The address of the place.
    pub fn as_ptr_int(&self) -> (r: usize)
        requires
            self.wf(),
        ensures
            r == self.base_addr + self.absolute_offset_bytes,
    {
        self.base_addr + self.absolute_offset()
    }

    /// The index of the element that holds the place.
    pub fn as_index_floor(&self) -> (r: usize)
        requires
            self.wf(),
        ensures
            r == self.spec_offset_from_header() / (self.stride as int),
    {
        self.offset_from_header() / self.stride
    }

    /// The place moved back to the last multiple of `nearest` bytes after the
    /// header. The chunk number stays.
    pub fn down_to_nearest_n_relative_to_header(&self, nearest: usize) -> (r: UfoOffset)
        requires
            self.wf(),
            nearest > 0,
        ensures
            r.wf(),
            r.spec_offset_from_header() == spec_down_to_nearest(
                self.spec_offset_from_header(),
                nearest as int,
            ),
            r.base_addr == self.base_addr,
            r.chunk_number == self.chunk_number,
            r.stride == self.stride,
            r.header_bytes == self.header_bytes,
            self.in_chunk(nearest as int) ==> r.at_chunk_start(nearest as int),
    {
        let offset = self.offset_from_header();
        let offset = down_to_nearest(offset, nearest);
        let absolute_offset_bytes = self.header_bytes + offset;
        proof {
            if self.in_chunk(nearest as int) {
                lemma_quotient_between_multiples(
                    self.spec_offset_from_header(),
                    nearest as int,
                    self.chunk_number as int,
                );
            }
        }
        UfoOffset {
            base_addr: self.base_addr,
            chunk_number: self.chunk_number,
            stride: self.stride,
            header_bytes: self.header_bytes,
            absolute_offset_bytes,
        }
    }

    /// The number of the chunk that holds the place.
    pub fn chunk_number(&self) -> (r: usize)
        ensures
            r == self.chunk_number,
    {
        self.chunk_number
    }
}

/// The part of an object that one fault brings in.
#[derive(Debug, Clone, Copy)]
pub struct LoadWindow {
    /// The first byte of the chunk.
    pub offset: UfoOffset,
    /// The first element of the chunk.
    pub start: usize,
    /// One past the last element to populate: the end of the chunk, or of
    /// the object where the object ends first.
    pub end: usize,
    /// The number of bytes to resolve: a whole load, or what is left of the
    /// mapping.
    pub populate_size: usize,
    /// The number of bytes of a whole load.
    pub load_size: usize,
}

impl UfoObjectConfig {
    /// `fault` is a place in the body of an object with this layout.
    pub open spec fn holds(&self, fault: UfoOffset) -> bool {
        &&& fault.wf()
        &&& fault.header_bytes == self.header_size_with_padding
        &&& fault.stride == self.stride
        &&& fault.absolute_offset_bytes < self.true_size
        &&& fault.in_chunk(self.spec_load_size())
    }

    /// The part of the object that a fault at `fault` brings in.
    pub open spec fn spec_load_window(&self, fault: UfoOffset) -> LoadWindow {
        let start = fault.chunk_number * self.elements_loaded_at_once;
        let place = self.header_size_with_padding + fault.chunk_number * self.spec_load_size();
        let left = self.true_size - place;
        LoadWindow {
            offset: UfoOffset {
                base_addr: fault.base_addr,
                chunk_number: fault.chunk_number,
                stride: fault.stride,
                header_bytes: fault.header_bytes,
                absolute_offset_bytes: place as usize,
            },
            start: start as usize,
            end: (if start + self.elements_loaded_at_once <= self.element_ct {
                start + self.elements_loaded_at_once
            } else {
                self.element_ct as int
            }) as usize,
            populate_size: (if self.spec_load_size() <= left {
                self.spec_load_size()
            } else {
                left
            }) as usize,
            load_size: self.spec_load_size() as usize,
        }
    }

    /// The part of the object that a fault at `fault` brings in: the chunk
    /// that holds the place, its elements up to the end of the object, and
    /// its bytes up to the end of the mapping.
    pub fn load_window(&self, fault: &UfoOffset) -> (w: LoadWindow)
        requires
            self.wf(),
            self.holds(*fault),
        ensures
            w == self.spec_load_window(*fault),
            w.offset.wf(),
            w.offset.at_chunk_start(self.spec_load_size()),
            w.start < w.end <= self.element_ct,
            (w.end - w.start) * self.stride <= w.populate_size <= w.load_size,
            w.offset.absolute_offset_bytes + w.populate_size <= self.true_size,
    {
        let load_size = self.load_size();
        let populate_offset = fault.down_to_nearest_n_relative_to_header(load_size);
        proof {
            lemma_window(*self, *fault);
            lemma_round_down(fault.spec_offset_from_header(), load_size as int);
        }
        let start = populate_offset.as_index_floor();
        let pop_end: usize = if self.element_ct - start < self.elements_loaded_at_once {
            self.element_ct
        } else {
            start + self.elements_loaded_at_once
        };
        let left: usize = self.true_size - populate_offset.absolute_offset();
        let populate_size: usize = if load_size <= left {
            load_size
        } else {
            left
        };
        LoadWindow { offset: populate_offset, start, end: pop_end, populate_size, load_size }
    }
}

/// The arithmetic of a load window: the chunk of a place in the body begins
/// at a whole number of elements, before the end of the object, and the
/// elements that it holds lie in the bytes that are resolved.
pub proof fn lemma_window(cfg: UfoObjectConfig, fault: UfoOffset)
    requires
        cfg.wf(),
        cfg.holds(fault),
    ensures
        ({
            let w = cfg.spec_load_window(fault);
            &&& w.offset.spec_offset_from_header() == fault.chunk_number * cfg.spec_load_size()
            &&& w.offset.spec_offset_from_header() <= fault.spec_offset_from_header()
            &&& w.offset.spec_offset_from_header() / (cfg.stride as int) == fault.chunk_number
                * cfg.elements_loaded_at_once
            &&& w.start == fault.chunk_number * cfg.elements_loaded_at_once
            &&& w.start < w.end <= cfg.element_ct
            &&& w.end - w.start <= cfg.elements_loaded_at_once
            &&& (w.end - w.start) * cfg.stride <= w.populate_size <= w.load_size
            &&& w.populate_size > 0
            &&& w.offset.absolute_offset_bytes + w.populate_size <= cfg.true_size
            &&& w.load_size == cfg.spec_load_size()
        }),
{
    let load = cfg.spec_load_size();
    let per_load = cfg.elements_loaded_at_once as int;
    let stride = cfg.stride as int;
    let chunk = fault.chunk_number as int;
    let off = fault.spec_offset_from_header();
    let body = cfg.spec_body_size();
    let elements = stride * cfg.element_ct;
    assert(load > 0) by (nonlinear_arith)
        requires
            load == per_load * stride,
            per_load > 0,
            stride > 0,
    ;
    assert(off < body);
    assert(cfg.element_ct > 0);
    // the chunk of the fault is at most the chunk of the last element
    lemma_quotient_between_multiples(off, load, chunk);
    vstd::arithmetic::div_mod::lemma_div_is_ordered(off, body - 1, load);
    let last = (elements - 1) / load;
    assert(chunk <= last);
    vstd::arithmetic::div_mod::lemma_fundamental_div_mod(elements - 1, load);
    assert(chunk * load <= elements - 1) by (nonlinear_arith)
        requires
            chunk <= last,
            elements - 1 == load * last + (elements - 1) % load,
            (elements - 1) % load >= 0,
            load > 0,
            chunk >= 0,
    ;
    let start = chunk * per_load;
    assert(chunk * load == start * stride) by (nonlinear_arith)
        requires
            load == per_load * stride,
            start == chunk * per_load,
    ;
    assert(start < cfg.element_ct) by (nonlinear_arith)
        requires
            start * stride <= elements - 1,
            elements == stride * cfg.element_ct,
            stride > 0,
    ;
    assert(start >= 0) by (nonlinear_arith)
        requires
            start == chunk * per_load,
            chunk >= 0,
            per_load > 0,
    ;
    vstd::arithmetic::div_mod::lemma_div_multiples_vanish(start, stride);
    assert(stride * start == start * stride) by (nonlinear_arith);
    let w = cfg.spec_load_window(fault);
    let place = cfg.header_size_with_padding + chunk * load;
    assert(place <= fault.absolute_offset_bytes);
    let left = cfg.true_size - place;
    assert(left == body - chunk * load);
    let count = w.end - w.start;
    assert(count * stride <= load) by (nonlinear_arith)
        requires
            0 <= count <= per_load,
            load == per_load * stride,
            stride > 0,
    ;
    assert(w.end * stride <= elements) by (nonlinear_arith)
        requires
            w.end <= cfg.element_ct,
            elements == stride * cfg.element_ct,
            stride > 0,
    ;
    assert(count * stride == w.end * stride - start * stride) by (nonlinear_arith)
        requires
            count == w.end - start,
    ;
}

/// The BLAKE3 digest of `input`, as `blake3::hash` computes it.
pub uninterp spec fn blake3_hash(input: Seq<u8>) -> Seq<u8>;

/// The BLAKE3 digest of `input`, as a new `blake3::Hasher` computes it that
/// was fed by `update_rayon`.
pub uninterp spec fn blake3_hash_rayon(input: Seq<u8>) -> Seq<u8>;

/// The digest of the contents of a chunk.
pub type DataHash = [u8; 32];

/// The length from which on a digest is computed on several threads.
pub const PARALLEL_HASH_FROM: usize = 128 * 1024;

/// `blake3::hash`: the 32 bytes of the BLAKE3 digest of `data`, computed on
/// the calling thread.
#[verifier::external_body]
fn blake3_serial(data: &[u8]) -> (r: DataHash)
    ensures
        r@ == blake3_hash(data@),
{
    *blake3::hash(data).as_bytes()
}

/// `blake3::Hasher::update_rayon` on a new hasher, then `finalize`: the 32
/// bytes of the BLAKE3 digest of `data`, computed on the threads of the
/// global pool.
#[verifier::external_body]
fn blake3_parallel(data: &[u8]) -> (r: DataHash)
    ensures
        r@ == blake3_hash_rayon(data@),
{
    *blake3::Hasher::new().update_rayon(data).finalize().as_bytes()
}

/// The digest of `data`: computed on several threads where the data is
/// longer than 128 KiB, and on the calling thread else.
pub open spec fn spec_hash_function(data: Seq<u8>) -> Seq<u8> {
    if data.len() > PARALLEL_HASH_FROM {
        blake3_hash_rayon(data)
    } else {
        blake3_hash(data)
    }
}

/// The digest of `data`.
pub fn hash_function(data: &[u8]) -> (r: DataHash)
    ensures
        r@ == spec_hash_function(data@),
{
    if data.len() > PARALLEL_HASH_FROM {
        blake3_parallel(data)
    } else {
        blake3_serial(data)
    }
}

/// Whether two digests are the same.
pub fn same_hash(a: &DataHash, b: &DataHash) -> (r: bool)
    ensures
        r == (a@ == b@),
{
    let mut i: usize = 0;
    while i < 32
        invariant
            i <= 32,
            forall|j: int| 0 <= j < i ==> a@[j] == b@[j],
        decreases 32 - i,
    {
        if a[i] != b[i] {
            return false;
        }
        i += 1;
    }
    assert(a@ =~= b@);
    true
}

/// One object: its identity, its layout, its mapping and its store.
#[derive(Debug, Clone, Copy)]
pub struct UfoObject {
    pub id: UfoId,
    pub config: UfoObjectConfig,
    pub mmap: BaseMmap,
    pub writeback_util: UfoFileWriteback,
}

impl UfoObject {
    /// The parts of the object belong together: the mapping has the size of
    /// the layout, and the store has a chunk for every load of it.
    pub open spec fn wf(&self) -> bool {
        &&& !self.id.is_sentinel()
        &&& self.config.wf()
        &&& self.mmap.wf()
        &&& self.mmap.len == self.config.true_size
        &&& self.writeback_util.wf()
        &&& self.writeback_util.ufo_id == self.id
        &&& self.writeback_util.chunk_size == self.config.spec_load_size()
        &&& self.writeback_util.chunk_ct == spec_chunk_ct(self.config)
    }

    /// The object of the identity `id` with the layout `config`, mapped at
    /// `mmap`, with the store `writeback_util`.
    pub fn new(
        id: UfoId,
        config: UfoObjectConfig,
        mmap: BaseMmap,
        writeback_util: UfoFileWriteback,
    ) -> (r: UfoObject)
        ensures
            r.id == id,
            r.config == config,
            r.mmap == mmap,
            r.writeback_util == writeback_util,
    {
        UfoObject { id, config, mmap, writeback_util }
    }

    /// Whether the two are the same object: they have the same identity.
    pub fn same_object(&self, other: &UfoObject) -> (r: bool)
        ensures
            r == (self.id == other.id),
    {
        self.id.0 == other.id.0
    }

    /// The address of the header: it ends where the body begins.
    pub fn header_ptr(&self) -> (r: usize)
        requires
            self.wf(),
        ensures
            r == self.mmap.base + (self.config.header_size_with_padding - self.config.header_size),
    {
        let header_offset = self.config.header_size_with_padding - self.config.header_size;
        self.mmap.as_ptr() + header_offset
    }

    /// The address of the body.
    pub fn body_ptr(&self) -> (r: usize)
        requires
            self.wf(),
        ensures
            r == self.mmap.base + self.config.header_size_with_padding,
    {
        self.mmap.as_ptr() + self.config.header_size_with_padding
    }

    /// What a reset of the object gives back to the kernel: the address of
    /// the body and its length. The header stays.
    pub fn reset_internal(&self) -> (r: (usize, usize))
        requires
            self.wf(),
        ensures
            r.0 == self.mmap.base + self.config.header_size_with_padding,
            r.1 == self.config.true_size - self.config.header_size_with_padding,
    {
        let length = self.config.true_size - self.config.header_size_with_padding;
        (self.body_ptr(), length)
    }
}

impl UfoOffset {
    /// The place of the address `addr` in the object `ufo`. The address lies
    /// at or after the body's first byte.
    pub fn from_addr(ufo: &UfoObject, addr: usize) -> (r: UfoOffset)
        requires
            ufo.wf(),
            ufo.mmap.base + ufo.config.header_size_with_padding <= addr,
        ensures
            r.wf(),
            r.base_addr == ufo.mmap.base,
            r.absolute_offset_bytes == addr - ufo.mmap.base,
            r.header_bytes == ufo.config.header_size_with_padding,
            r.stride == ufo.config.stride,
            r.chunk_number == r.spec_offset_from_header() / ufo.config.spec_load_size(),
            r.in_chunk(ufo.config.spec_load_size()),
            addr < ufo.mmap.base + ufo.mmap.len ==> ufo.config.holds(r),
    {
        let base_addr = ufo.mmap.as_ptr();
        let absolute_offset_bytes = addr - base_addr;
        let header_bytes = ufo.config.header_size_with_padding;
        let offset_from_header = absolute_offset_bytes - header_bytes;
        let bytes_loaded_at_once = ufo.config.load_size();
        let chunk_number = offset_from_header / bytes_loaded_at_once;
        proof {
            vstd::arithmetic::div_mod::lemma_fundamental_div_mod(
                offset_from_header as int,
                bytes_loaded_at_once as int,
            );
            assert((chunk_number + 1) * bytes_loaded_at_once == bytes_loaded_at_once
                * chunk_number + bytes_loaded_at_once) by (nonlinear_arith);
            assert(chunk_number * bytes_loaded_at_once == bytes_loaded_at_once * chunk_number)
                by (nonlinear_arith);
        }
        UfoOffset {
            base_addr,
            chunk_number,
            stride: ufo.config.stride,
            header_bytes,
            absolute_offset_bytes,
        }
    }
}

} // verus!
