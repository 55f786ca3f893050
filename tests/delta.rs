use fileshare_core::{
    BlockHash, DeltaApplier, DeltaGenerator, DeltaOperation, FileDelta, FileHasher, SmallFileDelta, SyncError,
    SyncOptions,
};

fn options_with_chunk(chunk_size: usize) -> SyncOptions {
    let mut options = SyncOptions::default();
    options.chunk_size = chunk_size;
    options
}

fn round_trip(source: &[u8], target: &[u8], chunk_size: usize) -> (FileDelta, Vec<u8>) {
    let blocks = FileHasher::hash_blocks(source, chunk_size);
    let generator = DeltaGenerator::new(options_with_chunk(chunk_size));
    let delta = generator.generate_delta(source, target, &blocks);
    let applier = DeltaApplier::new(options_with_chunk(chunk_size));
    let rebuilt = applier.apply_delta(source, &delta).unwrap();
    (delta, rebuilt)
}

#[test]
fn test_delta_generation_identical_files() {
    let options = SyncOptions::default();
    let generator = DeltaGenerator::new(options);

    let data = b"Hello, World!";

    let source_blocks = vec![BlockHash { offset: 0, size: data.len(), hash: FileHasher::hash_bytes(data) }];

    let delta = generator.generate_delta(data, data, &source_blocks);
    assert_eq!(delta.source_checksum, delta.target_checksum);
    assert!(delta.operations.is_empty());
}

#[test]
fn test_small_file_delta() {
    let source = b"Hello, World!";
    let target = b"Hello, Rust!";

    let delta = SmallFileDelta::generate(source, target);

    assert!(!delta.changes.is_empty());

    let change = &delta.changes[0];
    assert!(change.old_bytes.contains(&b'W'));
    assert!(change.new_bytes.contains(&b'R'));
}

#[test]
fn test_delta_application() {
    let options = SyncOptions::default();
    let applier = DeltaApplier::new(options);

    let source_data = b"Hello, World!";
    let insert_data = b" from Rust";

    let delta = FileDelta {
        file_id: "test".to_string(),
        source_checksum: "source".to_string(),
        target_checksum: "target".to_string(),
        operations: vec![
            DeltaOperation::Copy { source_offset: 0, target_offset: 0, length: 7 },
            DeltaOperation::Insert { target_offset: 7, data: insert_data.to_vec() },
            DeltaOperation::Copy { source_offset: 7, target_offset: 17, length: 6 },
        ],
        compressed_size: None,
    };

    let result = applier.apply_delta(source_data, &delta).unwrap();

    let expected = b"Hello,  from RustWorld!";
    assert_eq!(result, expected);
}

#[test]
fn hello_world_to_hello_rust_scenario() {
    let source = b"Hello, World!";
    let blocks = FileHasher::hash_blocks(source, 7);
    assert_eq!(blocks.len(), 2);
    assert_eq!((blocks[0].offset, blocks[0].size), (0, 7));
    assert_eq!(blocks[0].hash, FileHasher::hash_bytes(b"Hello, "));
    assert_eq!((blocks[1].offset, blocks[1].size), (7, 6));
    assert_eq!(blocks[1].hash, FileHasher::hash_bytes(b"World!"));

    let target = b"Hello, Rust!!";
    let generator = DeltaGenerator::new(options_with_chunk(7));
    let delta = generator.generate_delta(source, target, &blocks);
    assert_eq!(delta.operations.len(), 2);
    assert!(matches!(
        delta.operations[0],
        DeltaOperation::Copy { source_offset: 0, target_offset: 0, length: 7 }
    ));
    match &delta.operations[1] {
        DeltaOperation::Insert { target_offset, data } => {
            assert_eq!(*target_offset, 7);
            assert_eq!(data.as_slice(), b"Rust!!");
        },
        other => panic!("unexpected {:?}", other),
    }
    let applier = DeltaApplier::new(options_with_chunk(7));
    let rebuilt = applier.apply_delta(source, &delta).unwrap();
    assert_eq!(rebuilt, target);
    assert!(applier.verify_delta_application(&rebuilt, &delta.target_checksum));
    assert!(!applier.verify_delta_application(source, &delta.target_checksum));
}

#[test]
fn identical_versions_give_empty_delta() {
    let (delta, rebuilt) = round_trip(b"same bytes here!", b"same bytes here!", 4);
    assert!(delta.operations.is_empty());
    assert_eq!(delta.source_checksum, FileHasher::hash_bytes(b"same bytes here!"));
    assert!(rebuilt.is_empty());
    assert_eq!(delta.compressed_size, None);
    assert!(delta.file_id.is_empty());
}

#[test]
fn appended_bytes_round_trip() {
    let source = b"0123456789abcdef";
    let target = b"0123456789abcdefXYZ";
    let (delta, rebuilt) = round_trip(source, target, 8);
    assert_eq!(rebuilt, target);
    assert_eq!(delta.operations.len(), 3);
    assert!(matches!(delta.operations[1], DeltaOperation::Copy { source_offset: 8, target_offset: 8, length: 8 }));
}

#[test]
fn internal_insertion_round_trips() {
    let source = b"AAAAAAAABBBBBBBBCCCCCCCC";
    let target = b"AAAAAAAAxxxxxxxxBBBBBBBBCCCCCCCC";
    let (delta, rebuilt) = round_trip(source, target, 8);
    assert_eq!(rebuilt, target);
    assert_eq!(delta.operations.len(), 4);
    assert!(matches!(delta.operations[1], DeltaOperation::Insert { target_offset: 8, .. }));
}

#[test]
fn shifted_content_still_round_trips() {
    let source = b"AAAAAAAABBBBBBBBCCCCCCCC";
    let target = b"AAAAAAAAxyzBBBBBBBBCCCCCCCC";
    let (_, rebuilt) = round_trip(source, target, 8);
    assert_eq!(rebuilt, target);
}

#[test]
fn disjoint_target_is_one_insert() {
    let source = b"aaaaaaaaaaaaaaaa";
    let target = b"zzzzzzzzzzzzzzzzzzzz";
    let (delta, rebuilt) = round_trip(source, target, 8);
    assert_eq!(rebuilt, target);
    assert_eq!(delta.operations.len(), 1);
    match &delta.operations[0] {
        DeltaOperation::Insert { target_offset, data } => {
            assert_eq!(*target_offset, 0);
            assert_eq!(data.as_slice(), target);
        },
        other => panic!("unexpected {:?}", other),
    }
}

#[test]
fn empty_target_gives_no_instructions() {
    let (delta, rebuilt) = round_trip(b"something", b"", 4);
    assert!(delta.operations.is_empty());
    assert!(rebuilt.is_empty());
}

#[test]
fn duplicate_blocks_use_the_first() {
    let source = b"ABCDABCD";
    let blocks = FileHasher::hash_blocks(source, 4);
    let generator = DeltaGenerator::new(options_with_chunk(4));
    let delta = generator.generate_delta(source, b"ABCDxxxx", &blocks);
    assert!(matches!(delta.operations[0], DeltaOperation::Copy { source_offset: 0, .. }));
}

#[test]
fn copy_outside_reference_is_an_io_error() {
    let applier = DeltaApplier::new(SyncOptions::default());
    let delta = FileDelta {
        file_id: String::new(),
        source_checksum: String::new(),
        target_checksum: String::new(),
        operations: vec![DeltaOperation::Copy { source_offset: 10, target_offset: 0, length: 5 }],
        compressed_size: None,
    };
    assert!(matches!(applier.apply_delta(b"short", &delta), Err(SyncError::Io(_))));
}

#[test]
fn delete_is_not_replayed() {
    let applier = DeltaApplier::new(SyncOptions::default());
    let delta = FileDelta {
        file_id: String::new(),
        source_checksum: String::new(),
        target_checksum: String::new(),
        operations: vec![
            DeltaOperation::Delete { source_offset: 0, length: 3 },
            DeltaOperation::Copy { source_offset: 3, target_offset: 0, length: 2 },
        ],
        compressed_size: None,
    };
    assert_eq!(applier.apply_delta(b"abcde", &delta).unwrap(), b"de".to_vec());
}

#[test]
fn compression_is_recorded_when_it_helps() {
    let generator = DeltaGenerator::new(SyncOptions::default());
    let delta = generator.generate_delta(b"a", b"b", &[]);
    let serialized = vec![b'x'; 4096];
    let compressed = generator.compress_delta(delta.clone(), &serialized).unwrap();
    let size = compressed.compressed_size.unwrap();
    assert!(size < serialized.len());
    assert_eq!(size, zstd::bulk::compress(&serialized, 3).unwrap().len());

    let incompressible = generator.compress_delta(delta, b"ab").unwrap();
    assert_eq!(incompressible.compressed_size, None);
}

#[test]
fn record_compression_keeps_smaller_sizes_only() {
    let generator = DeltaGenerator::new(SyncOptions::default());
    let delta = generator.generate_delta(b"a", b"b", &[]);
    assert_eq!(delta.clone().record_compression(100, 40).compressed_size, Some(40));
    assert_eq!(delta.record_compression(100, 100).compressed_size, None);
}

#[test]
fn small_diff_exact_changes() {
    let delta = SmallFileDelta::generate(b"Hello, World!", b"Hello, Rust!");
    assert_eq!(delta.changes.len(), 1);
    assert_eq!(delta.changes[0].offset, 7);
    assert_eq!(delta.changes[0].old_bytes, b"World!".to_vec());
    assert_eq!(delta.changes[0].new_bytes, b"Rust!".to_vec());

    let same = SmallFileDelta::generate(b"abc", b"abc");
    assert!(same.changes.is_empty());

    let resync = SmallFileDelta::diff_bytes(b"abXdeYg", b"abZdeWg");
    assert_eq!(resync.len(), 2);
    assert_eq!((resync[0].offset, resync[0].old_bytes.clone(), resync[0].new_bytes.clone()), (2, b"X".to_vec(), b"Z".to_vec()));
    assert_eq!((resync[1].offset, resync[1].old_bytes.clone(), resync[1].new_bytes.clone()), (5, b"Y".to_vec(), b"W".to_vec()));

    let grow = SmallFileDelta::diff_bytes(b"", b"new");
    assert_eq!(grow.len(), 1);
    assert_eq!(grow[0].new_bytes, b"new".to_vec());
}
