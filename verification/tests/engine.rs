//! The storage engine: registration, flushing, batched reads, point
//! lookups, snapshots, and resets.

use vfs::storage_manager::{VFSManager, ResetOptions, FLUSH_THRESHOLD};
use vfs::err::VFSError;
use vfs::vector::VFSVector;

fn bits(vals: &[f32]) -> Vec<u32> {
    vals.iter().map(|v| v.to_bits()).collect()
}

fn register(m: &mut VFSManager, vals: &[f32], name: &str) -> u64 {
    m.register_vector_from_vec(bits(vals), name, Vec::new()).expect("registration must succeed")
}

#[test]
fn identifiers_strictly_increase_from_one() {
    let mut m = VFSManager::new("ids");
    let mut last = 0u64;
    for k in 0..6 {
        let id = register(&mut m, &[k as f32, 1.0], "v");
        assert!(id > last);
        assert_eq!(id, last + 1);
        last = id;
    }
    assert_eq!(m.get_max_id(), 6);
    assert_eq!(m.get_total_vectors_estimate(), 6);
}

#[test]
fn empty_vector_is_rejected() {
    let mut m = VFSManager::new("reject");
    let r = m.register_vector_from_vec(Vec::new(), "none", Vec::new());
    match r {
        Err(VFSError::InvalidVector(_)) => {},
        _ => panic!("an empty vector must be refused as invalid"),
    }
    // The engine is untouched.
    assert_eq!(m.get_max_id(), 0);
    assert_eq!(m.get_memtable_size(), 0);
}

#[test]
fn write_read_equivalence() {
    let mut m = VFSManager::new("wre");
    let expect: Vec<Vec<u32>> = (0..7)
        .map(|k| bits(&[k as f32, (k * k) as f32, 0.5]))
        .collect();
    for (k, vals) in expect.iter().enumerate() {
        m.register_vector_from_vec(vals.clone(), &format!("v{}", k), Vec::new()).unwrap();
    }
    m.flush_manual().unwrap();
    assert_eq!(m.get_memtable_size(), 0);
    assert_eq!(m.get_current_offset(), 0);
    let batch = m.load_batch(usize::MAX).unwrap();
    assert_eq!(batch.len(), 7);
    for (k, v) in batch.iter().enumerate() {
        assert_eq!(v.id(), (k + 1) as u64);
        assert_eq!(v.dense_bits().unwrap(), expect[k]);
    }
    // The cursor consumed the whole buffer; the next batch is empty.
    let empty = m.load_batch(usize::MAX).unwrap();
    assert!(empty.is_empty());
}

#[test]
fn memtable_drains_before_disk() {
    let mut m = VFSManager::new("drain");
    // Two on disk...
    register(&mut m, &[1.0], "d1");
    register(&mut m, &[2.0], "d2");
    m.flush_manual().unwrap();
    // ...and three pending in the memtable.
    register(&mut m, &[3.0], "m1");
    register(&mut m, &[4.0], "m2");
    register(&mut m, &[5.0], "m3");
    assert_eq!(m.get_memtable_size(), 3);
    assert_eq!(m.get_current_offset(), 0);

    let batch = m.load_batch(5).unwrap();
    let ids: Vec<u64> = batch.iter().map(|v| v.id()).collect();
    // Memtable entries come first, in insertion order, then the disk
    // records in file order.
    assert_eq!(ids, vec![3, 4, 5, 1, 2]);
    // Afterwards the memtable is empty and the drained entries are
    // indexed: point lookups still find them without scanning.
    assert_eq!(m.get_memtable_size(), 0);
    for id in 1..=5u64 {
        assert_eq!(m.get_vector_by_id(id).unwrap().id(), id);
    }
}

#[test]
fn get_by_id_before_and_after_flush() {
    let mut m = VFSManager::new("lookup");
    let vals = [0.25f32, -0.75, 8.0];
    let id = register(&mut m, &vals, "probe");
    // Still in the memtable.
    let got = m.get_vector_by_id(id).expect("must be found in the memtable");
    assert_eq!(got.dense_bits().unwrap(), bits(&vals));
    assert_eq!(got.metadata().name, "probe");
    m.flush_manual().unwrap();
    // Now served from disk through the primary index.
    let got = m.get_vector_by_id(id).expect("must be found through the index");
    assert_eq!(got.dense_bits().unwrap(), bits(&vals));
    assert_eq!(got.metadata().name, "probe");
}

#[test]
fn get_by_id_unknown_is_none() {
    let mut m = VFSManager::new("missing");
    register(&mut m, &[1.0], "only");
    assert!(m.get_vector_by_id(999999).is_none());
}

#[test]
fn get_by_id_scans_when_index_is_cleared() {
    let mut m = VFSManager::new("scan");
    let id = register(&mut m, &[6.5], "stray");
    m.flush_manual().unwrap();
    let wipe = ResetOptions {
        truncate_data_file: false,
        reset_offset: false,
        new_offset: None,
        clear_memtable: false,
        clear_indexmap: true,
        reset_id_counter: false,
        new_id_start: None,
    };
    m.reset_state(wipe).unwrap();
    // The index knows nothing, so the lookup falls back to a full scan.
    let got = m.get_vector_by_id(id).expect("the scan must find the record");
    assert_eq!(got.id(), id);
}

#[test]
fn snapshot_round_trip_preserves_state() {
    let mut m = VFSManager::new("snap");
    for k in 0..5 {
        register(&mut m, &[k as f32], "s");
    }
    m.flush_manual().unwrap();
    // Advance the cursor so the snapshot holds a non-trivial offset.
    let _ = m.load_batch(2).unwrap();
    let next_id = m.get_max_id() + 1;
    let offset = m.get_current_offset();

    let snapshot = m.save_state().unwrap();
    let mut fresh = VFSManager::new("other");
    fresh.set_data_file(m.data_file().clone());
    fresh.load_state(&snapshot).unwrap();

    assert_eq!(fresh.name, "snap");
    assert_eq!(fresh.get_max_id() + 1, next_id);
    assert_eq!(fresh.get_current_offset(), offset);
    assert_eq!(fresh.get_memtable_size(), 0);
    // The restored index answers point lookups identically.
    for id in 1..=5u64 {
        let a = m.get_vector_by_id(id).unwrap();
        let b = fresh.get_vector_by_id(id).unwrap();
        assert_eq!(a.dense_bits().unwrap(), b.dense_bits().unwrap());
        assert_eq!(a.metadata().name, b.metadata().name);
        assert_eq!(a.metadata().created_at, b.metadata().created_at);
    }
}

#[test]
fn restore_into_fresh_engine_finds_third_vector() {
    let mut m = VFSManager::new("again");
    let all: Vec<Vec<u32>> = (0..5).map(|k| bits(&[k as f32, 2.0 * k as f32])).collect();
    for (k, vals) in all.iter().enumerate() {
        m.register_vector_from_vec(vals.clone(), &format!("n{}", k + 1), Vec::new()).unwrap();
    }
    m.flush_manual().unwrap();
    let snapshot = m.save_state().unwrap();

    let mut fresh = VFSManager::new("fresh");
    fresh.set_data_file(m.data_file().clone());
    fresh.load_state(&snapshot).unwrap();
    let third = fresh.get_vector_by_id(3).expect("the third vector must be found");
    assert_eq!(third.id(), 3);
    assert_eq!(third.dense_bits().unwrap(), all[2]);
    assert_eq!(third.metadata().name, "n3");
    assert_eq!(
        third.metadata().created_at,
        m.get_vector_by_id(3).unwrap().metadata().created_at,
    );
}

#[test]
fn load_state_rejects_garbage() {
    let mut m = VFSManager::new("garbage");
    let r = m.load_state(&vec![1, 2, 3]);
    match r {
        Err(VFSError::SerializationError(_)) => {},
        _ => panic!("garbage snapshot bytes must be refused"),
    }
}

#[test]
fn flush_threshold_two_flushes_first_pair() {
    let mut m = VFSManager::with_flush_threshold("thresh", 2);
    register(&mut m, &[1.0], "a");
    assert_eq!(m.get_memtable_size(), 1);
    register(&mut m, &[2.0], "b");
    // The second registration reached the threshold and drained both.
    assert_eq!(m.get_memtable_size(), 0);
    register(&mut m, &[3.0], "c");
    // The first two now live in the primary index (on disk); the third
    // waits in the memtable.
    assert_eq!(m.get_memtable_size(), 1);
    let offset = m.get_current_offset();
    assert_eq!(offset, 0);
    let on_disk = m.data_file().len();
    assert!(on_disk > 0);
    // Lookups see all three regardless of where they live.
    for id in 1..=3u64 {
        assert_eq!(m.get_vector_by_id(id).unwrap().id(), id);
    }
}

#[test]
fn default_threshold_is_ten() {
    let mut m = VFSManager::new("ten");
    for k in 0..FLUSH_THRESHOLD - 1 {
        register(&mut m, &[k as f32], "w");
    }
    assert_eq!(m.get_memtable_size(), FLUSH_THRESHOLD - 1);
    register(&mut m, &[9.0], "last");
    assert_eq!(m.get_memtable_size(), 0);
}

#[test]
fn reset_clears_what_it_is_told_to() {
    let mut m = VFSManager::new("reset");
    register(&mut m, &[1.0], "r1");
    m.flush_manual().unwrap();
    let _ = m.load_batch(1).unwrap();
    assert!(m.get_current_offset() > 0);
    let rewind = ResetOptions::default();
    m.reset_state(rewind).unwrap();
    assert_eq!(m.get_current_offset(), 0);
    // Data and identifiers survived the default reset.
    assert_eq!(m.get_max_id(), 1);
    assert_eq!(m.load_batch(1).unwrap().len(), 1);

    let full = ResetOptions {
        truncate_data_file: true,
        reset_offset: true,
        new_offset: Some(0),
        clear_memtable: true,
        clear_indexmap: true,
        reset_id_counter: true,
        new_id_start: Some(1),
    };
    m.reset_state(full).unwrap();
    assert_eq!(m.get_max_id(), 0);
    assert_eq!(m.data_file().len(), 0);
    assert!(m.load_batch(usize::MAX).unwrap().is_empty());
    // Identifiers restart from one.
    assert_eq!(register(&mut m, &[1.0], "fresh"), 1);
}

#[test]
fn quantized_registration_round_trips() {
    let mut m = VFSManager::new("quant");
    let id = m
        .register_vector_quantized(
            vec![-64, 0, 64],
            (127.0f32).to_bits(),
            "q",
            vec!["raw".to_string()],
        )
        .unwrap();
    let got = m.get_vector_by_id(id).unwrap();
    let (values, scale_bits) = got.quantized_bits().unwrap();
    assert_eq!(values, vec![-64, 0, 64]);
    assert_eq!(f32::from_bits(scale_bits), 127.0);
    assert_eq!(
        got.metadata().tags,
        vec!["raw".to_string(), "quantized".to_string()],
    );
}
