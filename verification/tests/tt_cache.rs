use stonksfich::engine::tt::{tt_new, tt_probe, tt_store, TTFlag};

#[test]
fn fresh_table_answers_only_hash_zero() {
    let tt = tt_new(64);
    // Every slot starts holding hash zero, so only a probe of hash zero
    // sees the default entry.
    let e = tt_probe(&tt, 0).unwrap();
    assert_eq!(e.score, 0);
    assert_eq!(e.depth, 0);
    assert_eq!(e.flag, TTFlag::Exact);
    assert!(tt_probe(&tt, 7).is_none());
    assert!(tt_probe(&tt, 64).is_none());
}

#[test]
fn stored_entries_read_back_exactly() {
    let mut tt = tt_new(64);
    tt_store(&mut tt, 123, 5, -42, TTFlag::UpperBound);
    let e = tt_probe(&tt, 123).unwrap();
    assert_eq!(e.score, -42);
    assert_eq!(e.depth, 5);
    assert_eq!(e.flag, TTFlag::UpperBound);
    assert_eq!(e.zobrist_key, 123);
    // Extreme scores survive the packing.
    tt_store(&mut tt, 7, 255, 20000, TTFlag::LowerBound);
    let e = tt_probe(&tt, 7).unwrap();
    assert_eq!(e.score, 20000);
    assert_eq!(e.depth, 255);
    assert_eq!(e.flag, TTFlag::LowerBound);
    tt_store(&mut tt, 7, 0, -20000, TTFlag::Exact);
    assert_eq!(tt_probe(&tt, 7).unwrap().score, -20000);
}

#[test]
fn a_probe_never_sees_a_different_hash() {
    let mut tt = tt_new(16);
    // 5 and 21 share the slot 5 of a 16-slot table.
    tt_store(&mut tt, 5, 3, 10, TTFlag::Exact);
    assert!(tt_probe(&tt, 21).is_none());
    tt_store(&mut tt, 21, 4, 99, TTFlag::Exact);
    // Last writer wins the slot; the evicted hash is gone, and the slot's
    // entry is never misreported under the old hash.
    assert!(tt_probe(&tt, 5).is_none());
    let e = tt_probe(&tt, 21).unwrap();
    assert_eq!(e.score, 99);
    assert_eq!(e.depth, 4);
}

#[test]
fn unrelated_slots_are_untouched_by_a_store() {
    let mut tt = tt_new(16);
    tt_store(&mut tt, 3, 2, 7, TTFlag::Exact);
    tt_store(&mut tt, 4, 9, -1, TTFlag::LowerBound);
    let e = tt_probe(&tt, 3).unwrap();
    assert_eq!(e.score, 7);
    assert_eq!(e.depth, 2);
}
