use blockstore::{
    BlockId, BlockStoreError, Data, EncryptedBlockStore, EncryptionKey, GrowableData,
    InMemoryBlockStore, XChaCha20Poly1305, _check_and_remove_header, _prepend_header,
    sub_header_len,
};

const OVERHEAD: usize = 40;

fn test_key_bytes() -> Vec<u8> {
    (0u8..32).collect()
}

fn make_store() -> EncryptedBlockStore<XChaCha20Poly1305, InMemoryBlockStore> {
    let cipher = XChaCha20Poly1305::new(EncryptionKey::from_bytes(test_key_bytes()));
    EncryptedBlockStore::new(InMemoryBlockStore::new(), cipher)
}

fn fill_window(buf: &mut GrowableData, bytes: &[u8]) {
    assert_eq!(buf.len(), bytes.len());
    for (i, b) in bytes.iter().enumerate() {
        buf.set(i, *b);
    }
}

#[test]
fn cipher_round_trip() {
    let cipher = XChaCha20Poly1305::new(EncryptionKey::from_bytes(test_key_bytes()));
    let plaintext = b"some plaintext block".to_vec();
    let mut raw = vec![0u8; OVERHEAD + plaintext.len()];
    raw[OVERHEAD..].copy_from_slice(&plaintext);
    let buf = GrowableData::from_vec(raw).into_subregion(OVERHEAD, 0);
    let ciphertext = blockstore::Cipher::encrypt(&cipher, buf).unwrap();
    assert_eq!(ciphertext.len(), plaintext.len() + OVERHEAD);
    assert_eq!(ciphertext.available_prefix_bytes(), 0);
    let decrypted = blockstore::Cipher::decrypt(&cipher, ciphertext.extract()).unwrap();
    assert_eq!(decrypted.as_ref(), &plaintext);
}

#[test]
fn cipher_round_trip_empty_plaintext() {
    let cipher = XChaCha20Poly1305::new(EncryptionKey::from_bytes(test_key_bytes()));
    let raw = vec![0u8; OVERHEAD];
    let buf = GrowableData::from_vec(raw).into_subregion(OVERHEAD, 0);
    let ciphertext = blockstore::Cipher::encrypt(&cipher, buf).unwrap();
    assert_eq!(ciphertext.len(), OVERHEAD);
    let decrypted = blockstore::Cipher::decrypt(&cipher, ciphertext.extract()).unwrap();
    assert_eq!(decrypted.as_ref(), &[] as &[u8]);
}

#[test]
fn cipher_overhead_is_nonce_plus_tag() {
    let cipher = XChaCha20Poly1305::new(EncryptionKey::from_bytes(test_key_bytes()));
    assert_eq!(blockstore::Cipher::ciphertext_overhead(&cipher), OVERHEAD);
}

#[test]
fn store_load_scenario() {
    let mut store = make_store();
    let plaintext = b"hello world";
    let mut buf = store.allocate(plaintext.len());
    assert_eq!(buf.len(), plaintext.len());
    assert_eq!(buf.available_prefix_bytes(), 2 + OVERHEAD);
    assert_eq!(buf.available_suffix_bytes(), 0);
    fill_window(&mut buf, plaintext);
    store.store_optimized(&BlockId::new(b"b1".to_vec()), buf).unwrap();

    // the physical record: header, then nonce, ciphertext and tag
    assert_eq!(store.underlying_block_store.entries.len(), 1);
    let record = &store.underlying_block_store.entries[0].1;
    assert_eq!(record.len(), 2 + OVERHEAD + plaintext.len());
    assert_eq!(&record[..2], &[1u8, 0u8]);
    // the plaintext does not sit in the clear at its offset
    assert_ne!(&record[2 + 24..2 + 24 + plaintext.len()], plaintext.as_slice());

    let loaded = store.load(&BlockId::new(b"b1".to_vec())).unwrap().unwrap();
    assert_eq!(loaded.as_ref(), plaintext.as_slice());

    let missing = store.load(&BlockId::new(b"missing".to_vec())).unwrap();
    assert!(missing.is_none());
}

#[test]
fn tamper_detection_every_byte() {
    let mut store = make_store();
    let plaintext = b"hello world";
    let mut buf = store.allocate(plaintext.len());
    fill_window(&mut buf, plaintext);
    let id = BlockId::new(b"b1".to_vec());
    store.store_optimized(&id, buf).unwrap();

    let record_len = store.underlying_block_store.entries[0].1.len();
    // flip a single bit anywhere in the ciphertext region (everything after
    // the 2-byte header): load must fail with a decryption error
    for pos in 2..record_len {
        for bit in 0..8 {
            store.underlying_block_store.entries[0].1[pos] ^= 1 << bit;
            let r = store.load(&id);
            assert!(matches!(r, Err(BlockStoreError::DecryptionFailed)));
            store.underlying_block_store.entries[0].1[pos] ^= 1 << bit;
        }
    }
    // untampered again: loads fine
    let loaded = store.load(&id).unwrap().unwrap();
    assert_eq!(loaded.as_ref(), plaintext.as_slice());
}

#[test]
fn header_validation() {
    let mut store = make_store();
    let plaintext = b"hello world";
    let mut buf = store.allocate(plaintext.len());
    fill_window(&mut buf, plaintext);
    let id = BlockId::new(b"b1".to_vec());
    store.store_optimized(&id, buf).unwrap();

    store.underlying_block_store.entries[0].1[0] = 2;
    match store.load(&id) {
        Err(BlockStoreError::CorruptBlock { found }) => {
            assert_eq!(found, vec![2u8, 0u8]);
        },
        other => panic!("expected a corrupt-block error, got {:?}", other.is_ok()),
    }
}

#[test]
fn load_of_truncated_record_fails_decryption() {
    let mut store = make_store();
    let id = BlockId::new(b"b1".to_vec());
    let mut buf = store.allocate(4);
    fill_window(&mut buf, b"abcd");
    store.store_optimized(&id, buf).unwrap();
    // header intact but too little ciphertext left to authenticate
    store.underlying_block_store.entries[0].1.truncate(10);
    let r = store.load(&id);
    assert!(matches!(r, Err(BlockStoreError::DecryptionFailed)));
}

#[test]
fn load_of_record_shorter_than_header_is_corrupt() {
    let mut store = make_store();
    let id = BlockId::new(b"b1".to_vec());
    store.underlying_block_store.entries.push((b"b1".to_vec(), vec![7u8]));
    match store.load(&id) {
        Err(BlockStoreError::CorruptBlock { found }) => assert_eq!(found, vec![7u8]),
        _ => panic!("expected a corrupt-block error"),
    }
}

#[test]
fn load_with_wrong_key_fails_decryption() {
    let mut store = make_store();
    let plaintext = b"hello world";
    let mut buf = store.allocate(plaintext.len());
    fill_window(&mut buf, plaintext);
    let id = BlockId::new(b"b1".to_vec());
    store.store_optimized(&id, buf).unwrap();

    let other_key: Vec<u8> = (100u8..132).collect();
    let other_cipher = XChaCha20Poly1305::new(EncryptionKey::from_bytes(other_key));
    let same_contents = InMemoryBlockStore {
        entries: store.underlying_block_store.entries.clone(),
    };
    let other_store = EncryptedBlockStore::new(same_contents, other_cipher);
    let r = other_store.load(&id);
    assert!(matches!(r, Err(BlockStoreError::DecryptionFailed)));
}

#[test]
fn size_arithmetic() {
    let store = make_store();
    for n in [0u64, 1, 11, 1024] {
        assert_eq!(
            store.block_size_from_physical_block_size(2 + OVERHEAD as u64 + n).unwrap(),
            n
        );
    }
    match store.block_size_from_physical_block_size(0) {
        Err(BlockStoreError::ConfigurationError { block_size, min_required }) => {
            assert_eq!(block_size, 0);
            assert_eq!(min_required, 2);
        },
        _ => panic!("expected a configuration error"),
    }
    match store.block_size_from_physical_block_size(1) {
        Err(BlockStoreError::ConfigurationError { min_required, .. }) => {
            assert_eq!(min_required, 2);
        },
        _ => panic!("expected a configuration error"),
    }
    for bad in [2u64, 3, 41] {
        match store.block_size_from_physical_block_size(bad) {
            Err(BlockStoreError::ConfigurationError { block_size, min_required }) => {
                assert_eq!(block_size, bad);
                assert_eq!(min_required, 2 + OVERHEAD as u64);
            },
            _ => panic!("expected a configuration error"),
        }
    }
}

#[test]
fn passthrough_fidelity() {
    let mut store = make_store();
    assert_eq!(store.num_blocks().unwrap(), 0);
    assert_eq!(store.estimate_num_free_bytes().unwrap(), u64::MAX);
    assert_eq!(store.all_blocks().unwrap().len(), 0);

    for (name, text) in [(b"b1".to_vec(), b"one".to_vec()), (b"b2".to_vec(), b"two".to_vec())] {
        let mut buf = store.allocate(text.len());
        fill_window(&mut buf, &text);
        store.store_optimized(&BlockId::new(name), buf).unwrap();
    }
    assert_eq!(store.num_blocks().unwrap(), 2);
    assert_eq!(store.estimate_num_free_bytes().unwrap(), u64::MAX);

    let mut names: Vec<Vec<u8>> = store
        .all_blocks()
        .unwrap()
        .iter()
        .map(|id| id.data().to_vec())
        .collect();
    names.sort();
    assert_eq!(names, vec![b"b1".to_vec(), b"b2".to_vec()]);

    assert!(store.remove(&BlockId::new(b"b1".to_vec())).unwrap());
    assert!(!store.remove(&BlockId::new(b"b1".to_vec())).unwrap());
    assert_eq!(store.num_blocks().unwrap(), 1);
    assert!(store.load(&BlockId::new(b"b1".to_vec())).unwrap().is_none());
}

#[test]
fn try_create_reports_existing_block() {
    let mut store = make_store();
    let id = BlockId::new(b"b1".to_vec());

    let mut buf = store.allocate(3);
    fill_window(&mut buf, b"one");
    assert!(store.try_create_optimized(&id, buf).unwrap());

    let mut buf2 = store.allocate(3);
    fill_window(&mut buf2, b"two");
    assert!(!store.try_create_optimized(&id, buf2).unwrap());

    let loaded = store.load(&id).unwrap().unwrap();
    assert_eq!(loaded.as_ref(), b"one".as_slice());
}

#[test]
fn store_overwrites_existing_block() {
    let mut store = make_store();
    let id = BlockId::new(b"b1".to_vec());
    let mut buf = store.allocate(3);
    fill_window(&mut buf, b"one");
    store.store_optimized(&id, buf).unwrap();
    let mut buf2 = store.allocate(5);
    fill_window(&mut buf2, b"two-2");
    store.store_optimized(&id, buf2).unwrap();
    assert_eq!(store.num_blocks().unwrap(), 1);
    let loaded = store.load(&id).unwrap().unwrap();
    assert_eq!(loaded.as_ref(), b"two-2".as_slice());
}

#[test]
fn header_prepend_and_strip_are_inverse() {
    let mut raw = vec![0u8; 2 + 5];
    raw[2..].copy_from_slice(b"abcde");
    let buf = GrowableData::from_vec(raw).into_subregion(2, 0);
    let with_header = _prepend_header(buf);
    assert_eq!(with_header.as_ref(), &[1u8, 0, b'a', b'b', b'c', b'd', b'e']);
    assert_eq!(with_header.available_prefix_bytes(), 0);
    let stripped = _check_and_remove_header(with_header.extract()).unwrap();
    assert_eq!(stripped.as_ref(), b"abcde".as_slice());
}

#[test]
fn check_header_rejects_other_bytes() {
    let data = Data::from_vec(vec![9u8, 9, 1, 2, 3]);
    match _check_and_remove_header(data) {
        Err(BlockStoreError::CorruptBlock { found }) => assert_eq!(found, vec![9u8, 9]),
        _ => panic!("expected a corrupt-block error"),
    }
}

#[test]
fn sub_header_len_subtracts_header() {
    assert_eq!(sub_header_len(2), 0);
    assert_eq!(sub_header_len(53), 51);
}

#[test]
fn grow_and_shrink_report_exact_reserves() {
    let data = GrowableData::from_vec(vec![0u8; 100]);
    let d = data.into_subregion(30, 20);
    assert_eq!(d.available_prefix_bytes(), 30);
    assert_eq!(d.available_suffix_bytes(), 20);
    assert_eq!(d.len(), 50);
    let d = d.grow_region(10, 5);
    assert_eq!(d.available_prefix_bytes(), 20);
    assert_eq!(d.available_suffix_bytes(), 15);
    assert_eq!(d.len(), 65);
    let d = d.grow_region(20, 15);
    assert_eq!(d.available_prefix_bytes(), 0);
    assert_eq!(d.available_suffix_bytes(), 0);
    assert_eq!(d.len(), 100);
}

#[test]
fn try_from_data_validates_reserves() {
    let data = Data::from_vec(vec![0u8; 10]).into_subregion(3, 4);
    let g = GrowableData::try_from_data(data, 3, 4).unwrap();
    assert_eq!(g.available_prefix_bytes(), 3);
    assert_eq!(g.available_suffix_bytes(), 4);

    let data2 = Data::from_vec(vec![0u8; 10]).into_subregion(3, 4);
    assert!(GrowableData::try_from_data(data2, 2, 4).is_err());
}

#[test]
fn allocate_window_is_zeroed() {
    let store = make_store();
    let buf = store.allocate(8);
    assert_eq!(buf.as_ref(), &[0u8; 8]);
}
