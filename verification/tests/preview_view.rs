use links::graph::Links;
use links::outcome::PathOutcome;
use links::preview::{get_cache, CacheSort, PREVIEW_SIZE};
use links::store::{insert_path, lookup_path, CacheStore, Path};

fn demo_links() -> Links {
    let mut links = Links::new();
    links.add(1, "Alpha".to_string());
    links.add(2, "Beta".to_string());
    links.add(3, "Gamma".to_string());
    links.add(4, "Delta".to_string());
    links
}

fn put(store: &mut CacheStore, src: u32, dst: u32, outcome: PathOutcome, at: i64) {
    assert!(insert_path(store, Path { src, dst, outcome }, at).is_some());
}

#[test]
fn recent_preview_orders_by_last_access_descending() {
    let mut store = CacheStore::new();
    let links = demo_links();
    put(&mut store, 1, 2, PathOutcome::Found(3), 10);
    put(&mut store, 2, 3, PathOutcome::Found(1), 30);
    put(&mut store, 3, 1, PathOutcome::Found(2), 20);
    let rows = get_cache(&store, &links, &CacheSort::Recent, 10).unwrap();
    assert_eq!(
        rows,
        vec![
            ("Beta".to_string(), 1, "Gamma".to_string()),
            ("Gamma".to_string(), 2, "Alpha".to_string()),
            ("Alpha".to_string(), 3, "Beta".to_string()),
        ]
    );
}

#[test]
fn preview_caps_rows_at_the_requested_count() {
    let mut store = CacheStore::new();
    let links = demo_links();
    put(&mut store, 1, 2, PathOutcome::Found(3), 10);
    put(&mut store, 2, 3, PathOutcome::Found(1), 30);
    put(&mut store, 3, 1, PathOutcome::Found(2), 20);
    let rows = get_cache(&store, &links, &CacheSort::Recent, 2).unwrap();
    assert_eq!(
        rows,
        vec![
            ("Beta".to_string(), 1, "Gamma".to_string()),
            ("Gamma".to_string(), 2, "Alpha".to_string()),
        ]
    );
    let none = get_cache(&store, &links, &CacheSort::Recent, 0).unwrap();
    assert!(none.is_empty());
}

#[test]
fn preview_drops_unreached_paths_and_vanished_endpoints() {
    let mut store = CacheStore::new();
    let links = demo_links();
    put(&mut store, 1, 2, PathOutcome::Found(3), 40);
    put(&mut store, 1, 3, PathOutcome::Unreached, 50);
    put(&mut store, 1, 99, PathOutcome::Found(2), 60);
    put(&mut store, 98, 2, PathOutcome::Found(2), 70);
    let rows = get_cache(&store, &links, &CacheSort::Recent, 16).unwrap();
    assert_eq!(rows, vec![("Alpha".to_string(), 3, "Beta".to_string())]);
}

#[test]
fn popular_preview_orders_by_hit_count() {
    let mut store = CacheStore::new();
    let links = demo_links();
    put(&mut store, 1, 2, PathOutcome::Found(3), 10);
    put(&mut store, 2, 3, PathOutcome::Found(1), 11);
    lookup_path(&mut store, 2, 3, 12);
    lookup_path(&mut store, 2, 3, 13);
    lookup_path(&mut store, 1, 2, 14);
    let rows = get_cache(&store, &links, &CacheSort::Popular, 10).unwrap();
    assert_eq!(
        rows,
        vec![
            ("Beta".to_string(), 1, "Gamma".to_string()),
            ("Alpha".to_string(), 3, "Beta".to_string()),
        ]
    );
}

#[test]
fn length_preview_orders_by_stored_result() {
    let mut store = CacheStore::new();
    let links = demo_links();
    put(&mut store, 1, 2, PathOutcome::Found(1), 10);
    put(&mut store, 2, 3, PathOutcome::Found(4), 11);
    put(&mut store, 3, 4, PathOutcome::Found(2), 12);
    let rows = get_cache(&store, &links, &CacheSort::Length, 10).unwrap();
    assert_eq!(
        rows,
        vec![
            ("Beta".to_string(), 4, "Gamma".to_string()),
            ("Gamma".to_string(), 2, "Delta".to_string()),
            ("Alpha".to_string(), 1, "Beta".to_string()),
        ]
    );
}

#[test]
fn default_preview_size_is_sixteen() {
    assert_eq!(PREVIEW_SIZE, 16);
}
