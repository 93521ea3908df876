use links::outcome::{decode_outcome, encode_outcome, PathOutcome};
use links::store::{
    insert_path, insert_path_now, lookup_path, lookup_path_now, purge_cache, CacheStore,
    CachedPath, Path, StorageError,
};

fn found(src: u32, dst: u32, len: u16) -> Path {
    Path {
        src,
        dst,
        outcome: PathOutcome::Found(len),
    }
}

#[test]
fn encode_decode_exact_values() {
    assert_eq!(encode_outcome(PathOutcome::Unreached), 0);
    assert_eq!(encode_outcome(PathOutcome::Found(0)), 1);
    assert_eq!(encode_outcome(PathOutcome::Found(3)), 4);
    assert_eq!(encode_outcome(PathOutcome::Found(32766)), 32767);
    assert_eq!(decode_outcome(0), PathOutcome::Unreached);
    assert_eq!(decode_outcome(-5), PathOutcome::Unreached);
    assert_eq!(decode_outcome(1), PathOutcome::Found(0));
    assert_eq!(decode_outcome(4), PathOutcome::Found(3));
}

#[test]
fn insert_then_lookup_returns_row_with_one_hit() {
    let mut store = CacheStore::new();
    let inserted = insert_path(&mut store, found(1, 2, 3), 100);
    assert_eq!(
        inserted,
        Some(CachedPath {
            src: 1,
            dst: 2,
            result: 4,
            last_access: 100,
            hit_count: 0,
        })
    );
    let hit = lookup_path(&mut store, 1, 2, 200);
    assert_eq!(
        hit,
        Some(CachedPath {
            src: 1,
            dst: 2,
            result: 4,
            last_access: 200,
            hit_count: 1,
        })
    );
}

#[test]
fn repeated_lookup_increments_by_one_each_time() {
    let mut store = CacheStore::new();
    insert_path(&mut store, found(7, 9, 0), 10);
    let first = lookup_path(&mut store, 7, 9, 11).unwrap();
    let second = lookup_path(&mut store, 7, 9, 12).unwrap();
    let third = lookup_path(&mut store, 7, 9, 13).unwrap();
    assert_eq!(first.hit_count, 1);
    assert_eq!(second.hit_count, 2);
    assert_eq!(third.hit_count, 3);
    assert_eq!(third.last_access, 13);
    assert_eq!(third.result, 1);
}

#[test]
fn lookup_miss_returns_none_and_changes_nothing() {
    let mut store = CacheStore::new();
    insert_path(&mut store, found(1, 2, 3), 100);
    assert_eq!(lookup_path(&mut store, 2, 1, 200), None);
    let row = lookup_path(&mut store, 1, 2, 300).unwrap();
    assert_eq!(row.hit_count, 1);
}

#[test]
fn insert_on_present_key_returns_none_and_keeps_row() {
    let mut store = CacheStore::new();
    insert_path(&mut store, found(5, 6, 2), 50);
    let again = insert_path(&mut store, found(5, 6, 9), 60);
    assert_eq!(again, None);
    let row = lookup_path(&mut store, 5, 6, 70).unwrap();
    assert_eq!(row.result, 3);
    assert_eq!(row.hit_count, 1);
}

#[test]
fn directed_keys_are_distinct() {
    let mut store = CacheStore::new();
    assert!(insert_path(&mut store, found(1, 2, 3), 10).is_some());
    assert!(insert_path(&mut store, found(2, 1, 4), 11).is_some());
    assert_eq!(lookup_path(&mut store, 1, 2, 20).unwrap().result, 4);
    assert_eq!(lookup_path(&mut store, 2, 1, 21).unwrap().result, 5);
}

#[test]
fn unreached_results_are_cached_too() {
    let mut store = CacheStore::new();
    let row = insert_path(
        &mut store,
        Path {
            src: 3,
            dst: 4,
            outcome: PathOutcome::Unreached,
        },
        10,
    )
    .unwrap();
    assert_eq!(row.result, 0);
    assert_eq!(decode_outcome(row.result), PathOutcome::Unreached);
}

#[test]
fn purge_then_lookup_misses() {
    let mut store = CacheStore::new();
    insert_path(&mut store, found(1, 2, 3), 10);
    insert_path(&mut store, found(3, 4, 5), 11);
    lookup_path(&mut store, 1, 2, 12);
    assert_eq!(purge_cache(&mut store), Ok(2));
    assert_eq!(lookup_path(&mut store, 1, 2, 13), None);
    assert_eq!(lookup_path(&mut store, 3, 4, 14), None);
}

#[test]
fn purge_on_empty_store_reports_zero() {
    let mut store = CacheStore::new();
    let purged: Result<usize, StorageError> = purge_cache(&mut store);
    assert_eq!(purged, Ok(0));
}

#[test]
fn clock_stamped_operations_keep_the_bookkeeping() {
    let mut store = CacheStore::new();
    let row = insert_path_now(&mut store, found(8, 9, 1)).unwrap();
    assert_eq!(row.hit_count, 0);
    assert_eq!(row.result, 2);
    let hit = lookup_path_now(&mut store, 8, 9).unwrap();
    assert_eq!(hit.hit_count, 1);
    assert_eq!(hit.result, 2);
    assert_eq!(lookup_path_now(&mut store, 9, 8), None);
}
