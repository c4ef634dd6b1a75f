// A small stand-in for the kernel: objects live at made-up addresses, their
// resident chunks are kept in a table, and every access to a chunk that is
// not resident goes through the library's fault steps.

use std::collections::HashMap;

use ufos_core::chunk::{ChunkFreer, FreeAction, PivotAction, UfoChunk};
use ufos_core::mmap_wrapers::BaseMmap;
use ufos_core::ufo_core::{FaultErr, UfoCoreConfig, UfoCoreState};
use ufos_core::ufo_objects::{UfoId, UfoObjectConfigPrototype};

const PAGE: usize = 4096;

struct Machine {
    state: UfoCoreState,
    stores: HashMap<u64, Vec<u8>>,
    resident: HashMap<(u64, usize), Vec<u8>>,
    freer: ChunkFreer,
    populate_calls: usize,
    next_base: usize,
    high_watermark: usize,
    most_resident: usize,
}

fn fill_with_indices(stride: usize, start: usize, end: usize, out: &mut [u8]) {
    for idx in start..end {
        let at = (idx - start) * stride;
        let bytes = (idx as u64).to_le_bytes();
        out[at..at + stride].copy_from_slice(&bytes[..stride]);
    }
}

impl Machine {
    fn new(high_watermark: usize, low_watermark: usize) -> Machine {
        let config = UfoCoreConfig::new("/tmp".to_string(), high_watermark, low_watermark)
            .expect("error getting core");
        Machine {
            state: UfoCoreState::new(&config),
            stores: HashMap::new(),
            resident: HashMap::new(),
            freer: ChunkFreer::new(),
            populate_calls: 0,
            next_base: 0x1000_0000,
            high_watermark,
            most_resident: 0,
        }
    }

    fn allocate(&mut self, prototype: &UfoObjectConfigPrototype, ct: usize) -> UfoId {
        let config = prototype.new_config(ct, PAGE).expect("valid configuration");
        let mmap = BaseMmap::new(self.next_base, config.true_size);
        self.next_base += config.true_size + 16 * PAGE;
        let id = self.state.allocate_impl(config, mmap, PAGE).expect("allocated");
        let total = self.state.get_ufo_by_id(id).expect("live").writeback_util.total_bytes;
        self.stores.insert(id.0, vec![0u8; total]);
        id
    }

    fn body_ptr(&self, id: UfoId) -> usize {
        self.state.get_ufo_by_id(id).expect("live").body_ptr()
    }

    fn header_ptr(&self, id: UfoId) -> usize {
        self.state.get_ufo_by_id(id).expect("live").header_ptr()
    }

    fn evict(&mut self, mut chunk: UfoChunk) {
        let id = chunk.ufo_id();
        let chunk_number = chunk.offset().chunk_number();
        let object = self.state.get_ufo_by_id(id).ok();
        match self.freer.ensure_capcity(&chunk, PAGE) {
            PivotAction::Create(n) | PivotAction::Grow(n) => {
                self.freer.set_pivot(BaseMmap::new(0x7000_0000_0000, n))
            }
            PivotAction::Keep => {}
        }
        let mut nothing: [u8; 0] = [];
        let region: &mut [u8] = match self.stores.get_mut(&id.0) {
            Some(r) => r,
            None => &mut nothing,
        };
        match self.freer.free_chunk(&mut chunk, object, region, PAGE).expect("free") {
            FreeAction::Nothing => {}
            FreeAction::Discard { len, .. } => {
                let gone = self.resident.remove(&(id.0, chunk_number)).expect("resident");
                assert_eq!(gone.len(), len);
            }
            FreeAction::Snapshot { guard, pages, .. } => {
                let mut pivot = self.resident.remove(&(id.0, chunk_number)).expect("resident");
                let len = pivot.len();
                pivot.resize(pages, 0);
                let freed = chunk
                    .free_and_writeback_dirty(object.expect("live"), region, guard, &pivot)
                    .expect("freed");
                assert_eq!(freed, len);
            }
        }
    }

    fn fault(&mut self, addr: usize) -> Result<(), FaultErr> {
        let plan = self.state.begin_populate(addr)?;
        for victim in plan.victims {
            self.evict(victim);
        }
        let object = self.state.get_ufo_by_id(plan.ufo_id).expect("live");
        let region = self.stores.get_mut(&plan.ufo_id.0).expect("store");
        let chunk_number = plan.window.offset.chunk_number();
        let guard = object
            .writeback_util
            .chunk_locks
            .spinlock(region, chunk_number)
            .expect("lock works")
            .expect("lock is free");
        let mut data = vec![0u8; plan.window.load_size];
        match object.writeback_util.try_readback(region, &plan.window.offset) {
            Some(bytes) => data.copy_from_slice(bytes),
            None => {
                self.populate_calls += 1;
                fill_with_indices(
                    object.config.stride,
                    plan.window.start,
                    plan.window.end,
                    &mut data,
                );
            }
        }
        object.writeback_util.chunk_locks.unlock(region, &guard);
        self.resident
            .insert((plan.ufo_id.0, chunk_number), data[..plan.window.populate_size].to_vec());
        let chunk = UfoChunk::loaded(object, &plan.window, &data);
        self.state.finish_populate(chunk);
        let used = self.state.loaded_chunks.used_memory;
        assert!(used <= self.high_watermark);
        if used > self.most_resident {
            self.most_resident = used;
        }
        Ok(())
    }

    fn locate(&mut self, addr: usize) -> (u64, usize, usize) {
        let (id, body, load) = {
            let object = self.state.get_ufo_by_address(addr).expect("an object owns the address");
            (object.id.0, object.body_ptr(), object.config.elements_loaded_at_once * object.config.stride)
        };
        let off = addr - body;
        let chunk = off / load;
        if !self.resident.contains_key(&(id, chunk)) {
            self.fault(addr).expect("fault resolved");
        }
        (id, chunk, off - chunk * load)
    }

    fn read(&mut self, addr: usize, width: usize) -> u64 {
        let in_header = {
            let object = self.state.get_ufo_by_address(addr).expect("an object owns the address");
            addr < object.body_ptr()
        };
        if in_header {
            return 0;
        }
        let (id, chunk, at) = self.locate(addr);
        let bytes = &self.resident[&(id, chunk)][at..at + width];
        let mut word = [0u8; 8];
        word[..width].copy_from_slice(bytes);
        u64::from_le_bytes(word)
    }

    fn write(&mut self, addr: usize, width: usize, value: u64) {
        let (id, chunk, at) = self.locate(addr);
        let bytes = value.to_le_bytes();
        self.resident.get_mut(&(id, chunk)).expect("resident")[at..at + width]
            .copy_from_slice(&bytes[..width]);
    }

    fn evict_everything(&mut self) {
        let victims = {
            let low = self.state.loaded_chunks.low_watermark;
            self.state.loaded_chunks.low_watermark = 0;
            let victims = self.state.loaded_chunks.free_until_low_water_mark();
            self.state.loaded_chunks.low_watermark = low;
            victims
        };
        for victim in victims {
            self.evict(victim);
        }
        assert_eq!(self.state.loaded_chunks.used_memory, 0);
        assert!(self.resident.is_empty());
    }

    fn reset(&mut self, id: UfoId) {
        let (addr, len) = self.state.reset_impl(id).expect("live");
        let object = self.state.get_ufo_by_id(id).expect("live");
        assert_eq!(addr, object.body_ptr());
        assert_eq!(len, object.config.true_size - object.config.header_size_with_padding);
        object.writeback_util.reset(self.stores.get_mut(&id.0).expect("store"));
        self.resident.retain(|key, _| key.0 != id.0);
    }

    fn free(&mut self, id: UfoId) {
        let object = self.state.free_impl(id).expect("live");
        assert_eq!(object.id, id);
        self.stores.remove(&id.0);
        self.resident.retain(|key, _| key.0 != id.0);
    }
}

fn basic_test_object(
    stride: usize,
    header_size: usize,
    body_size: usize,
    min_load: usize,
) -> (Machine, UfoId) {
    let mut machine = Machine::new(1024 * 1024 * 1024, 512 * 1024 * 1024);
    let prototype =
        UfoObjectConfigPrototype::new_prototype(header_size, stride, Some(min_load), false);
    let id = machine.allocate(&prototype, body_size);
    (machine, id)
}

#[test]
fn lib_core_starts() {
    let config = UfoCoreConfig::new("/tmp".to_string(), 1024 * 1024 * 1024, 512 * 1024 * 1024)
        .expect("error getting core");
    let state = UfoCoreState::new(&config);
    assert_eq!(state.loaded_chunks.used_memory, 0);
    assert_eq!(state.objects_by_id.len(), 0);
    assert_eq!(state.objects_by_segment.len(), 0);
}

#[test]
fn lib_it_works() {
    let (mut machine, o) = basic_test_object(4, 0, 1000 * 1000, 4096);
    let body = machine.body_ptr(o);
    for x in 0..1000 * 1000 {
        assert_eq!(x as u64, machine.read(body + 4 * x, 4));
    }
}

#[test]
fn lib_with_header() {
    let (mut machine, o) = basic_test_object(4, 1, 1000 * 1000, 4096);
    let header = machine.header_ptr(o);
    assert_eq!(machine.read(header, 1), 0);
    let body = machine.body_ptr(o);
    assert_eq!(body - header, 1);
    for x in 0..1000 * 1000 {
        assert_eq!(x as u64, machine.read(body + 4 * x, 4));
    }
}

#[test]
fn lib_reverse_iterate() {
    let ct = 1000 * 1000;
    let (mut machine, o) = basic_test_object(4, 1, ct, 4096);
    let header = machine.header_ptr(o);
    assert_eq!(machine.read(header, 1), 0);
    let body = machine.body_ptr(o);
    for x in 1..=ct {
        let y = ct - x;
        assert_eq!(y as u64, machine.read(body + 4 * y, 4));
    }
}

#[test]
fn last_element_and_reset_after_eviction() {
    let (mut machine, o) = basic_test_object(4, 1, 1_000_000, 4096);
    let body = machine.body_ptr(o);
    assert_eq!(machine.read(body + 4 * 999_999, 4), 999_999);
    machine.write(body, 4, 7);
    assert_eq!(machine.read(body, 4), 7);
    machine.evict_everything();
    assert_eq!(machine.read(body, 4), 7);
    machine.evict_everything();
    machine.reset(o);
    assert_eq!(machine.read(body, 4), 0);
    assert_eq!(machine.read(body + 4 * 999_999, 4), 999_999);
}

#[test]
fn written_values_survive_eviction_with_writeback() {
    let (mut machine, o) = basic_test_object(8, 0, 64 * 1024, 2048);
    let body = machine.body_ptr(o);
    for x in 0..1024 {
        machine.write(body + 8 * x, 8, 14 + x as u64);
    }
    machine.evict_everything();
    let before = machine.populate_calls;
    for x in 0..1024 {
        assert_eq!(machine.read(body + 8 * x, 8), 14 + x as u64);
    }
    assert_eq!(machine.read(body + 8 * 2047, 8), 2047);
    // the chunk came back from the store, not from the populate function
    assert_eq!(machine.populate_calls, before);
}

#[test]
fn read_only_objects_are_populated_again_after_eviction() {
    let mut machine = Machine::new(1024 * 1024, 512 * 1024);
    let prototype = UfoObjectConfigPrototype::new_prototype(0, 8, Some(2048), true);
    let o = machine.allocate(&prototype, 64 * 1024);
    let body = machine.body_ptr(o);
    assert_eq!(machine.read(body + 8 * 5, 8), 5);
    assert_eq!(machine.populate_calls, 1);
    machine.evict_everything();
    assert!(machine.stores[&o.0].iter().all(|b| *b == 0));
    assert_eq!(machine.read(body + 8 * 5, 8), 5);
    assert_eq!(machine.populate_calls, 2);
}

#[test]
fn unchanged_chunks_are_not_written_back() {
    let (mut machine, o) = basic_test_object(8, 0, 64 * 1024, 2048);
    let body = machine.body_ptr(o);
    assert_eq!(machine.read(body, 8), 0);
    machine.evict_everything();
    // nothing but lock bits was ever set, and those were cleared again
    assert!(machine.stores[&o.0].iter().all(|b| *b == 0));
}

#[test]
fn reading_twice_populates_once() {
    let (mut machine, o) = basic_test_object(4, 0, 100_000, 4096);
    let body = machine.body_ptr(o);
    assert_eq!(machine.read(body + 4 * 10, 4), 10);
    assert_eq!(machine.read(body + 4 * 10, 4), 10);
    assert_eq!(machine.read(body + 4 * 11, 4), 11);
    assert_eq!(machine.populate_calls, 1);
    machine.write(body + 4 * 10, 4, 99);
    machine.evict_everything();
    assert_eq!(machine.read(body + 4 * 10, 4), 99);
    assert_eq!(machine.populate_calls, 1);
}

#[test]
fn reset_restores_resident_and_evicted_regions() {
    let ct = 64 * 1024;
    let (mut machine, o) = basic_test_object(8, 0, ct, 4096 * 4);
    let body = machine.body_ptr(o);
    for x in 0..ct {
        assert_eq!(machine.read(body + 8 * x, 8), x as u64);
    }
    for x in 0..ct {
        machine.write(body + 8 * x, 8, 7);
    }
    for x in 0..ct {
        assert_eq!(machine.read(body + 8 * x, 8), 7);
    }
    // half of the object is evicted, half stays resident
    let victims = machine.state.ensure_capcity(0);
    assert!(victims.is_empty());
    machine.evict_everything();
    for x in 0..ct / 2 {
        assert_eq!(machine.read(body + 8 * x, 8), 7);
    }
    machine.reset(o);
    assert_eq!(machine.state.loaded_chunks.used_memory, 0);
    for x in 0..ct {
        assert_eq!(machine.read(body + 8 * x, 8), x as u64);
    }
}

#[test]
fn resident_bytes_stay_under_the_high_watermark() {
    let mut machine = Machine::new(1024 * 1024, 512 * 1024);
    let prototype = UfoObjectConfigPrototype::new_prototype(0, 8, Some(4096), false);
    let ct = 512 * 1024;
    let o = machine.allocate(&prototype, ct);
    let body = machine.body_ptr(o);
    // 4 MiB of chunks of 32 KiB each
    for x in (0..ct).step_by(4096) {
        assert_eq!(machine.read(body + 8 * x, 8), x as u64);
        assert!(machine.state.loaded_chunks.used_memory <= 1024 * 1024);
    }
    assert!(machine.most_resident <= 1024 * 1024);
    assert!(machine.most_resident > 512 * 1024);
    // an eviction went down to the low watermark and no further than it had to
    assert!(machine.state.loaded_chunks.used_memory >= 32 * 1024);
}

#[test]
fn two_gigabytes_of_chunks_under_one_gigabyte() {
    // the bookkeeping alone: no bytes are produced or kept
    let low = 512 * 1024 * 1024;
    let high = 1024 * 1024 * 1024;
    let config = UfoCoreConfig::new("/tmp".to_string(), high, low).expect("error getting core");
    let mut state = UfoCoreState::new(&config);
    let prototype = UfoObjectConfigPrototype::new_prototype(0, 8, Some(128 * 1024), true);
    let ct = 256 * 1024 * 1024;
    let cfg = prototype.new_config(ct, PAGE).expect("valid configuration");
    let id = state.allocate_impl(cfg, BaseMmap::new(0x4000_0000, cfg.true_size), PAGE).expect("allocated");
    let load = 1024 * 1024;
    let body = state.get_ufo_by_id(id).expect("live").body_ptr();
    let mut evictions = 0;
    for chunk_number in 0..2048 {
        let plan = state.begin_populate(body + chunk_number * load + 17).expect("planned");
        assert_eq!(plan.window.offset.chunk_number(), chunk_number);
        assert_eq!(plan.window.populate_size, load);
        if !plan.victims.is_empty() {
            evictions += 1;
            assert_eq!(plan.victims.len(), 512);
            assert_eq!(state.loaded_chunks.used_memory, low);
        }
        assert!(state.loaded_chunks.used_memory + load <= high);
        let object = state.get_ufo_by_id(id).expect("live");
        let mut chunk = UfoChunk::new(object, plan.window.offset, plan.window.populate_size);
        chunk.hash_fulfiller(None);
        state.finish_populate(chunk);
        assert!(state.loaded_chunks.used_memory <= high);
    }
    assert_eq!(evictions, 2);
    assert_eq!(state.loaded_chunks.used_memory, 1024 * load);
}

#[test]
fn objects_do_not_alias_in_the_address_index() {
    let mut machine = Machine::new(1024 * 1024 * 1024, 512 * 1024 * 1024);
    let prototype = UfoObjectConfigPrototype::new_prototype(0, 4, Some(4096), false);
    let a = machine.allocate(&prototype, 10_000);
    let b = machine.allocate(&prototype, 10_000);
    assert_ne!(a, b);
    assert!(!a.is_sentinel() && !b.is_sentinel());
    let body_a = machine.body_ptr(a);
    let body_b = machine.body_ptr(b);
    // the same values, at different addresses
    assert_eq!(machine.read(body_a + 4 * 123, 4), 123);
    assert_eq!(machine.read(body_b + 4 * 123, 4), 123);
    machine.write(body_a + 4 * 123, 4, 1);
    assert_eq!(machine.read(body_b + 4 * 123, 4), 123);
    assert_eq!(machine.state.get_ufo_by_address(body_a + 5).expect("a").id, a);
    assert_eq!(machine.state.get_ufo_by_address(body_b + 5).expect("b").id, b);
    machine.free(a);
    assert!(machine.state.get_ufo_by_address(body_a + 5).is_err());
    assert!(machine.state.get_ufo_by_id(a).is_err());
    assert_eq!(machine.state.get_ufo_by_address(body_b + 5).expect("b").id, b);
    assert_eq!(machine.read(body_b + 4 * 123, 4), 123);
    assert_eq!(machine.read(body_b + 4 * 9_999, 4), 9_999);
}

#[test]
fn faults_on_disjoint_chunks_all_succeed() {
    let (mut machine, o) = basic_test_object(4, 0, 100_000, 4096);
    let body = machine.body_ptr(o);
    let load = 4096 * 4;
    for chunk in [7usize, 3, 24, 0, 11] {
        machine.fault(body + chunk * load + 100).expect("resolved");
    }
    assert_eq!(machine.populate_calls, 5);
    for chunk in [0usize, 3, 7, 11, 24] {
        let first = chunk * 4096;
        let bytes = &machine.resident[&(o.0, chunk)];
        let expected = if chunk == 24 { 100_000 - 24 * 4096 } else { 4096 };
        for k in 0..expected {
            let at = 4 * k;
            let word = u32::from_le_bytes([bytes[at], bytes[at + 1], bytes[at + 2], bytes[at + 3]]);
            assert_eq!(word as usize, first + k);
        }
    }
    assert_eq!(machine.state.loaded_chunks.loaded_chunks.len(), 5);
}

#[test]
fn a_changed_tail_chunk_is_not_kept() {
    // the last chunk of this object is shorter than a load, and the store
    // takes whole chunks only
    let (mut machine, o) = basic_test_object(4, 0, 100_000, 4096);
    let body = machine.body_ptr(o);
    machine.write(body + 4 * 99_999, 4, 5);
    assert_eq!(machine.read(body + 4 * 99_999, 4), 5);
    machine.evict_everything();
    assert_eq!(machine.read(body + 4 * 99_999, 4), 99_999);
}

#[test]
fn faults_outside_of_bodies_are_refused() {
    let (mut machine, o) = basic_test_object(4, 1, 1000, 4096);
    let header = machine.header_ptr(o);
    assert_eq!(machine.fault(header), Err(FaultErr::InHeader));
    assert_eq!(machine.fault(header - 4095), Err(FaultErr::InHeader));
    assert_eq!(machine.fault(header - 4096), Err(FaultErr::UfoNotFound));
    assert_eq!(machine.fault(0), Err(FaultErr::UfoNotFound));
    let mut small = Machine::new(16 * 1024, 1024);
    let prototype = UfoObjectConfigPrototype::new_prototype(0, 4, Some(4096), false);
    let p = small.allocate(&prototype, 10_000);
    let body = small.body_ptr(p);
    assert_eq!(small.fault(body), Err(FaultErr::LoadTooLarge));
}

#[test]
fn shutdown_frees_every_object() {
    let mut machine = Machine::new(1024 * 1024 * 1024, 512 * 1024 * 1024);
    let prototype = UfoObjectConfigPrototype::new_prototype(8, 4, None, false);
    let a = machine.allocate(&prototype, 10_000);
    let b = machine.allocate(&prototype, 20_000);
    let c = machine.allocate(&prototype, 30_000);
    let body_b = machine.body_ptr(b);
    assert_eq!(machine.read(body_b + 4 * 19_999, 4), 19_999);
    let mut freed: Vec<u64> = machine.state.shutdown_impl().iter().map(|o| o.id.0).collect();
    freed.sort();
    assert_eq!(freed, vec![a.0, b.0, c.0]);
    assert_eq!(machine.state.objects_by_id.len(), 0);
    assert_eq!(machine.state.objects_by_segment.len(), 0);
    assert_eq!(machine.state.loaded_chunks.used_memory, 0);
    assert!(machine.state.get_ufo_by_address(body_b).is_err());
}
