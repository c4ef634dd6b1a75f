use std::collections::HashMap;

use ufos_core::errors::UfoConfigErr;
use ufos_core::mmap_wrapers::BaseMmap;
use ufos_core::ufo_core::UfoCoreConfig;
use ufos_core::ufo_objects::{
    UfoId, UfoIdGen, UfoObject, UfoObjectConfig, UfoObjectConfigPrototype, UfoOffset,
};
use ufos_core::writeback::UfoFileWriteback;

const PAGE: usize = 4096;

#[test]
fn layout_of_an_object() {
    let cfg = UfoObjectConfig::new_config(1, 1_000_000, 4, false, Some(4096), PAGE).expect("valid");
    assert_eq!(cfg.header_size, 1);
    assert_eq!(cfg.header_size_with_padding, 4096);
    assert_eq!(cfg.stride, 4);
    assert_eq!(cfg.element_ct, 1_000_000);
    assert_eq!(cfg.elements_loaded_at_once, 4096);
    assert_eq!(cfg.true_size, 4096 + 977 * 4096);
    assert!(!cfg.read_only);
    assert!(cfg.should_try_writeback());
    assert_eq!(cfg.load_size(), 16384);

    let none = UfoObjectConfig::new_config(0, 10, 12, true, None, PAGE).expect("valid");
    assert_eq!(none.header_size_with_padding, 0);
    // lcm(4096, 12) = 12288
    assert_eq!(none.elements_loaded_at_once, 1024);
    assert_eq!(none.true_size, 4096);
    assert!(!none.should_try_writeback());

    let odd = UfoObjectConfig::new_config(4097, 3, 7, false, Some(5), PAGE).expect("valid");
    assert_eq!(odd.header_size_with_padding, 8192);
    // lcm(4096, 35) = 143360
    assert_eq!(odd.elements_loaded_at_once, 20480);
    assert_eq!(odd.true_size, 8192 + 4096);
}

#[test]
fn a_load_is_whole_pages_and_whole_smallest_loads() {
    for stride in [1usize, 2, 3, 4, 7, 8, 12, 24, 4096, 5000] {
        for min_load in [1usize, 2, 3, 100, 1024, 4096, 4097] {
            for page in [4096usize, 16384, 65536] {
                let cfg = UfoObjectConfig::new_config(9, 1234, stride, false, Some(min_load), page)
                    .expect("valid");
                let load = cfg.elements_loaded_at_once * cfg.stride;
                assert_eq!(load % page, 0);
                assert_eq!(load % (min_load * stride), 0);
                assert!(cfg.elements_loaded_at_once >= min_load);
                assert_eq!(cfg.header_size_with_padding % page, 0);
                assert_eq!(cfg.true_size % page, 0);
            }
        }
    }
}

#[test]
fn configurations_that_are_refused() {
    let zero = Err(UfoConfigErr::ZeroQuantum);
    assert_eq!(UfoObjectConfig::new_config(0, 10, 0, false, None, PAGE).map(|_| ()), zero);
    assert_eq!(UfoObjectConfig::new_config(0, 10, 4, false, Some(0), PAGE).map(|_| ()), zero);
    assert_eq!(UfoObjectConfig::new_config(0, 10, 4, false, None, 0).map(|_| ()), zero);
    let overflow = Err(UfoConfigErr::SizeOverflow);
    assert_eq!(
        UfoObjectConfig::new_config(0, usize::MAX / 2, 4, false, None, PAGE).map(|_| ()),
        overflow
    );
    assert_eq!(
        UfoObjectConfig::new_config(usize::MAX, 10, 4, false, None, PAGE).map(|_| ()),
        overflow
    );
    assert_eq!(
        UfoObjectConfig::new_config(usize::MAX - 8191, usize::MAX - 8191, 1, false, None, PAGE)
            .map(|_| ()),
        overflow
    );
    assert_eq!(
        UfoObjectConfig::new_config(0, 10, 4, false, Some(usize::MAX / 2), PAGE).map(|_| ()),
        overflow
    );
    // lcm(4096, 2^63 - 1) does not fit
    assert_eq!(
        UfoObjectConfig::new_config(0, 10, 1, false, Some(usize::MAX / 2), PAGE).map(|_| ()),
        overflow
    );
    assert_eq!(
        UfoCoreConfig::new("/tmp".to_string(), 512, 1024).map(|_| ()),
        Err(UfoConfigErr::WatermarkOrder)
    );
    assert_eq!(
        UfoCoreConfig::new("/tmp".to_string(), 512, 512).map(|_| ()),
        Err(UfoConfigErr::WatermarkOrder)
    );
    let ok = UfoCoreConfig::new("/tmp".to_string(), 513, 512).expect("in order");
    assert_eq!((ok.high_watermark, ok.low_watermark), (513, 512));
    assert_eq!(ok.writeback_temp_path, "/tmp");
}

#[test]
fn prototype_keeps_what_it_was_given() {
    let prototype = UfoObjectConfigPrototype::new_prototype(16, 8, Some(100), true);
    assert_eq!(prototype.header_size, 16);
    assert_eq!(prototype.stride, 8);
    assert_eq!(prototype.min_load_ct, Some(100));
    assert!(prototype.read_only);
    let cfg = prototype.new_config(1000, PAGE).expect("valid");
    let direct = UfoObjectConfig::new_config(16, 1000, 8, true, Some(100), PAGE).expect("valid");
    assert_eq!(cfg.elements_loaded_at_once, direct.elements_loaded_at_once);
    assert_eq!(cfg.true_size, direct.true_size);
    assert_eq!(cfg.header_size_with_padding, direct.header_size_with_padding);
    assert_eq!(cfg.elements_loaded_at_once, 12800);
    assert!(cfg.read_only);
}

fn object(header: usize, ct: usize, stride: usize, min_load: usize, base: usize) -> UfoObject {
    let cfg = UfoObjectConfig::new_config(header, ct, stride, false, Some(min_load), PAGE).expect("valid");
    let store = UfoFileWriteback::new(UfoId(3), &cfg, PAGE).expect("fits");
    UfoObject::new(UfoId(3), cfg, BaseMmap::new(base, cfg.true_size), store)
}

#[test]
fn offsets_of_addresses() {
    let ufo = object(1, 1_000_000, 4, 4096, 0x10_0000);
    assert_eq!(ufo.header_ptr(), 0x10_0000 + 4095);
    assert_eq!(ufo.body_ptr(), 0x10_0000 + 4096);
    assert_eq!(ufo.reset_internal(), (0x10_0000 + 4096, 977 * 4096));
    let first = UfoOffset::from_addr(&ufo, ufo.body_ptr());
    assert_eq!(first.absolute_offset(), 4096);
    assert_eq!(first.offset_from_header(), 0);
    assert_eq!(first.chunk_number(), 0);
    assert_eq!(first.as_index_floor(), 0);
    assert_eq!(first.as_ptr_int(), ufo.body_ptr());

    let addr = ufo.body_ptr() + 4 * 999_999 + 3;
    let last = UfoOffset::from_addr(&ufo, addr);
    assert_eq!(last.absolute_offset(), 4096 + 3_999_999);
    assert_eq!(last.offset_from_header(), 3_999_999);
    assert_eq!(last.chunk_number(), 244);
    assert_eq!(last.as_index_floor(), 999_999);
    assert_eq!(last.as_ptr_int(), addr);
    let aligned = last.down_to_nearest_n_relative_to_header(16384);
    assert_eq!(aligned.offset_from_header(), 244 * 16384);
    assert_eq!(aligned.absolute_offset(), 4096 + 244 * 16384);
    assert_eq!(aligned.chunk_number(), 244);
    assert_eq!(aligned.as_index_floor(), 244 * 4096);
    assert_eq!(aligned.as_ptr_int(), ufo.body_ptr() + 244 * 16384);
    let by_stride = last.down_to_nearest_n_relative_to_header(4);
    assert_eq!(by_stride.offset_from_header(), 3_999_996);

    // the edges of a chunk
    let end_of_first = UfoOffset::from_addr(&ufo, ufo.body_ptr() + 16383);
    assert_eq!(end_of_first.chunk_number(), 0);
    let start_of_second = UfoOffset::from_addr(&ufo, ufo.body_ptr() + 16384);
    assert_eq!(start_of_second.chunk_number(), 1);
    assert_eq!(start_of_second.as_index_floor(), 4096);
}

#[test]
fn load_windows() {
    let ufo = object(1, 1_000_000, 4, 4096, 0x10_0000);
    let fault = UfoOffset::from_addr(&ufo, ufo.body_ptr() + 5 * 16384 + 77);
    let window = ufo.config.load_window(&fault);
    assert_eq!(window.offset.chunk_number(), 5);
    assert_eq!(window.offset.offset_from_header(), 5 * 16384);
    assert_eq!(window.start, 5 * 4096);
    assert_eq!(window.end, 6 * 4096);
    assert_eq!(window.populate_size, 16384);
    assert_eq!(window.load_size, 16384);

    // the last chunk ends with the object, and with the mapping
    let fault = UfoOffset::from_addr(&ufo, ufo.body_ptr() + 4 * 999_999);
    let window = ufo.config.load_window(&fault);
    assert_eq!(window.offset.chunk_number(), 244);
    assert_eq!(window.start, 244 * 4096);
    assert_eq!(window.end, 1_000_000);
    assert_eq!(window.populate_size, 977 * 4096 - 244 * 16384);
    assert_eq!(window.populate_size, 4096);
    assert_eq!(window.load_size, 16384);
    assert!((window.end - window.start) * 4 <= window.populate_size);

    // a fault in the padding after the last element
    let fault = UfoOffset::from_addr(&ufo, ufo.body_ptr() + 977 * 4096 - 1);
    let window = ufo.config.load_window(&fault);
    assert_eq!((window.start, window.end), (244 * 4096, 1_000_000));

    // an object smaller than one load
    let small = object(0, 10, 8, 4096, 0x20_0000);
    let fault = UfoOffset::from_addr(&small, small.body_ptr() + 79);
    let window = small.config.load_window(&fault);
    assert_eq!((window.start, window.end), (0, 10));
    assert_eq!(window.populate_size, 4096);
    assert_eq!(window.load_size, 32768);
}

#[test]
fn identities() {
    assert!(UfoId::sentinel().is_sentinel());
    assert_eq!(UfoId::sentinel(), UfoId(0));
    assert!(!UfoId(1).is_sentinel());
    let mut live: HashMap<u64, ()> = HashMap::new();
    let mut ids = UfoIdGen::new();
    assert_eq!(ids.next(&live), UfoId(1));
    assert_eq!(ids.next(&live), UfoId(2));
    live.insert(3, ());
    live.insert(4, ());
    live.insert(6, ());
    assert_eq!(ids.next(&live), UfoId(5));
    assert_eq!(ids.next(&live), UfoId(7));
    live.insert(u64::MAX, ());
    live.insert(1, ());
    let mut ids = UfoIdGen::new();
    for _ in 0..3 {
        ids.next(&live);
    }
    assert_eq!(ids.next(&live), UfoId(8));
}

#[test]
fn identities_wrap_around_past_the_sentinel() {
    let mut live: HashMap<u64, ()> = HashMap::new();
    for k in 1..=5u64 {
        live.insert(k, ());
    }
    live.remove(&3);
    // walk the counter up by hand: every identity from 1 on is taken but 3
    let mut walked = UfoIdGen::new();
    assert_eq!(walked.next(&live), UfoId(3));
    live.insert(3, ());
    assert_eq!(walked.next(&live), UfoId(6));
    let a = UfoObject::new(
        UfoId(6),
        UfoObjectConfig::new_config(0, 1, 1, false, None, PAGE).expect("valid"),
        BaseMmap::new(0, 4096),
        UfoFileWriteback::new(
            UfoId(6),
            &UfoObjectConfig::new_config(0, 1, 1, false, None, PAGE).expect("valid"),
            PAGE,
        )
        .expect("fits"),
    );
    let b = UfoObject::new(
        UfoId(6),
        UfoObjectConfig::new_config(0, 2, 1, false, None, PAGE).expect("valid"),
        BaseMmap::new(8192, 4096),
        UfoFileWriteback::new(
            UfoId(6),
            &UfoObjectConfig::new_config(0, 2, 1, false, None, PAGE).expect("valid"),
            PAGE,
        )
        .expect("fits"),
    );
    assert!(a.same_object(&b));
}
