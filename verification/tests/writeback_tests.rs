use ufos_core::errors::UfoConfigErr;
use ufos_core::ufo_objects::{hash_function, same_hash, UfoId, UfoObjectConfig, UfoOffset};
use ufos_core::writeback::{UfoFileWriteback, WritebackErr};

const PAGE: usize = 4096;

fn offset_of_chunk(cfg: &UfoObjectConfig, chunk: usize) -> UfoOffset {
    UfoOffset {
        base_addr: 0x10_0000,
        chunk_number: chunk,
        stride: cfg.stride,
        header_bytes: cfg.header_size_with_padding,
        absolute_offset_bytes: cfg.header_size_with_padding
            + chunk * cfg.elements_loaded_at_once * cfg.stride,
    }
}

fn store_of(ct: usize, stride: usize, min_load: usize) -> (UfoObjectConfig, UfoFileWriteback, Vec<u8>) {
    let cfg = UfoObjectConfig::new_config(1, ct, stride, false, Some(min_load), PAGE).expect("valid");
    let store = UfoFileWriteback::new(UfoId(9), &cfg, PAGE).expect("fits");
    let region = vec![0u8; store.total_bytes];
    (cfg, store, region)
}

#[test]
fn layout_of_the_store() {
    let (_, store, _) = store_of(1_000_000, 4, 4096);
    assert_eq!(store.ufo_id, UfoId(9));
    assert_eq!(store.chunk_ct, 245);
    assert_eq!(store.chunk_size, 16384);
    assert_eq!(store.header_bytes, 2 * 4096);
    assert_eq!(store.total_bytes, 2 * 4096 + 245 * 16384);
    assert_eq!(store.body_bytes(), 245 * 16384);
    assert_eq!(store.body_bytes() % store.chunk_size, 0);
    assert_eq!(store.chunk_locks.base, 4096);
    assert_eq!(store.chunk_locks.size_bits, 245);
    assert!(!store.chunk_locks.poisoned);
    // more chunks than one page of bits holds
    let (_, big, _) = store_of(4096 * 8 * 4096 + 1, 1, 4096);
    assert_eq!(big.chunk_ct, 4096 * 8 + 1);
    assert_eq!(big.header_bytes, 2 * 2 * 4096);
    // no chunks at all
    let (_, empty, region) = store_of(0, 4, 4096);
    assert_eq!(empty.chunk_ct, 0);
    assert_eq!(empty.total_bytes, 0);
    assert!(region.is_empty());
}

#[test]
fn a_store_beyond_the_machine_word_is_refused() {
    let cfg = UfoObjectConfig {
        header_size_with_padding: 0,
        header_size: 0,
        stride: 1,
        elements_loaded_at_once: 4096,
        element_ct: usize::MAX - 4095,
        true_size: usize::MAX - 4095,
        read_only: false,
    };
    assert_eq!(UfoFileWriteback::new(UfoId(1), &cfg, PAGE).unwrap_err(), UfoConfigErr::SizeOverflow);
}

#[test]
fn written_chunks_are_read_back() {
    let (cfg, store, mut region) = store_of(100_000, 4, 4096);
    let data: Vec<u8> = (0..16384).map(|i| (i % 251) as u8).collect();
    let third = offset_of_chunk(&cfg, 3);
    assert!(store.try_readback(&region, &third).is_none());
    assert_eq!(store.writeback(&mut region, &third, &data), Ok(()));
    assert_eq!(store.try_readback(&region, &third).expect("written"), &data[..]);
    // bit 3 of the first byte of the bitmap, and the bytes of chunk 3
    assert_eq!(region[0], 1 << 3);
    assert_eq!(&region[8192 + 3 * 16384..8192 + 4 * 16384], &data[..]);
    assert!(region[1..8192].iter().all(|b| *b == 0));
    // the neighbours are as they were
    assert!(store.try_readback(&region, &offset_of_chunk(&cfg, 2)).is_none());
    assert!(store.try_readback(&region, &offset_of_chunk(&cfg, 4)).is_none());
    let other: Vec<u8> = vec![0xee; 16384];
    assert_eq!(store.writeback(&mut region, &offset_of_chunk(&cfg, 11), &other), Ok(()));
    assert_eq!(region[1], 1 << 3);
    assert_eq!(store.try_readback(&region, &third).expect("written"), &data[..]);
    assert_eq!(store.try_readback(&region, &offset_of_chunk(&cfg, 11)).expect("written"), &other[..]);
    // a second write replaces the first
    assert_eq!(store.writeback(&mut region, &third, &other), Ok(()));
    assert_eq!(store.try_readback(&region, &third).expect("written"), &other[..]);
}

#[test]
fn data_of_another_length_is_refused() {
    let (cfg, store, mut region) = store_of(100_000, 4, 4096);
    assert_eq!(store.chunk_ct, 25);
    let short = vec![1u8; 16383];
    assert_eq!(
        store.writeback(&mut region, &offset_of_chunk(&cfg, 0), &short),
        Err(WritebackErr::WrongSize(16384, 16383))
    );
    // the tail of the object: 100_000 - 24 * 4096 elements
    let tail = vec![1u8; (100_000 - 24 * 4096) * 4];
    assert_eq!(
        store.writeback(&mut region, &offset_of_chunk(&cfg, 24), &tail),
        Err(WritebackErr::WrongSize(16384, 6784))
    );
    assert_eq!(
        store.writeback(&mut region, &offset_of_chunk(&cfg, 25), &vec![1u8; 16384]),
        Err(WritebackErr::OutOfRange(25 * 16384))
    );
    assert!(region.iter().all(|b| *b == 0));
    assert!(store.try_readback(&region, &offset_of_chunk(&cfg, 25)).is_none());
    assert!(store.try_readback(&region, &offset_of_chunk(&cfg, 1000)).is_none());
    // a place inside the last chunk has no whole chunk after it
    let mut inside = offset_of_chunk(&cfg, 24);
    inside.absolute_offset_bytes += 4;
    assert_eq!(
        store.writeback(&mut region, &inside, &vec![1u8; 16380]),
        Ok(())
    );
    assert!(store.try_readback(&region, &inside).is_none());
    assert!(store.try_readback(&region, &offset_of_chunk(&cfg, 24)).is_some());
}

#[test]
fn reset_forgets_everything() {
    let (cfg, store, mut region) = store_of(100_000, 4, 4096);
    let data = vec![7u8; 16384];
    for chunk in [0usize, 5, 24] {
        assert_eq!(store.writeback(&mut region, &offset_of_chunk(&cfg, chunk), &data), Ok(()));
    }
    let guard = store.chunk_locks.lock_uncontended(&mut region, 2).expect("free");
    assert_eq!(guard.index(), 2);
    store.reset(&mut region);
    assert_eq!(region.len(), store.total_bytes);
    assert!(region.iter().all(|b| *b == 0));
    for chunk in 0..25 {
        assert!(store.try_readback(&region, &offset_of_chunk(&cfg, chunk)).is_none());
    }
}

fn hex(digest: &[u8; 32]) -> String {
    digest.iter().map(|b| format!("{:02x}", b)).collect()
}

#[test]
fn digests_are_those_of_blake3() {
    assert_eq!(
        hex(&hash_function(b"")),
        "af1349b9f5f9a1a6a0404dea36dcc9499bcb25c9adc112b7cc9a93cae41f3262"
    );
    let small = vec![3u8; 1000];
    assert_eq!(hash_function(&small), *blake3::hash(&small).as_bytes());
    // one byte more than what is hashed on one thread
    let large: Vec<u8> = (0..128 * 1024 + 1).map(|i| (i % 253) as u8).collect();
    assert_eq!(hash_function(&large), *blake3::hash(&large).as_bytes());
    let at_the_edge = &large[..128 * 1024];
    assert_eq!(hash_function(at_the_edge), *blake3::hash(at_the_edge).as_bytes());
    assert_ne!(hash_function(&large), hash_function(at_the_edge));
    assert!(same_hash(&hash_function(&small), &hash_function(&small)));
    assert!(!same_hash(&hash_function(&small), &hash_function(b"")));
    let mut almost = hash_function(&small);
    almost[31] ^= 1;
    assert!(!same_hash(&almost, &hash_function(&small)));
}
