use links::catalog::{batch_sizes, populate_addrs};
use links::graph::{Links, Ranks};
use links::resolve::{lookup_addr, Node};
use links::store::{insert_title, CacheStore, StorageError};

#[test]
fn empty_query_is_unused() {
    let store = CacheStore::new();
    assert!(matches!(lookup_addr(&store, ""), Node::Unused));
}

#[test]
fn exact_fuzzy_and_unknown_queries() {
    let mut store = CacheStore::new();
    insert_title(&mut store, "Dog".to_string(), 42).unwrap();

    match lookup_addr(&store, "Dog") {
        Node::Found(id, title) => {
            assert_eq!(id, 42);
            assert_eq!(title, "Dog");
        }
        _ => panic!("expected an exact match"),
    }

    match lookup_addr(&store, "Do") {
        Node::Sugg(titles) => assert_eq!(titles, vec!["Dog".to_string()]),
        _ => panic!("expected suggestions"),
    }

    match lookup_addr(&store, "Elephant") {
        Node::Unknown(q) => assert_eq!(q, "Elephant"),
        _ => panic!("expected no match"),
    }
}

#[test]
fn fuzzy_match_is_case_sensitive_substring() {
    let mut store = CacheStore::new();
    insert_title(&mut store, "Great Dane".to_string(), 1).unwrap();
    insert_title(&mut store, "dane".to_string(), 2).unwrap();
    match lookup_addr(&store, "Dane") {
        Node::Sugg(titles) => assert_eq!(titles, vec!["Great Dane".to_string()]),
        _ => panic!("expected one suggestion"),
    }
}

#[test]
fn suggestions_are_capped_at_ten_in_catalog_order() {
    let mut store = CacheStore::new();
    for i in 0..15u32 {
        insert_title(&mut store, format!("match {:02}", i), i).unwrap();
    }
    match lookup_addr(&store, "match") {
        Node::Sugg(titles) => {
            assert_eq!(titles.len(), 10);
            let expected: Vec<String> = (0..10).map(|i| format!("match {:02}", i)).collect();
            assert_eq!(titles, expected);
        }
        _ => panic!("expected suggestions"),
    }
}

#[test]
fn duplicate_title_insert_is_a_constraint_violation() {
    let mut store = CacheStore::new();
    insert_title(&mut store, "Dog".to_string(), 1).unwrap();
    let again = insert_title(&mut store, "Dog".to_string(), 2);
    assert_eq!(again.unwrap_err(), StorageError::ConstraintViolation);
    match lookup_addr(&store, "Dog") {
        Node::Found(id, _) => assert_eq!(id, 1),
        _ => panic!("expected the original row to stand"),
    }
}

#[test]
fn batch_sizes_are_bounded_and_cover_the_rows() {
    assert_eq!(batch_sizes(0), Vec::<usize>::new());
    assert_eq!(batch_sizes(1), vec![1]);
    assert_eq!(batch_sizes(10000), vec![10000]);
    assert_eq!(batch_sizes(10001), vec![10000, 1]);
    assert_eq!(batch_sizes(25000), vec![10000, 10000, 5000]);
}

#[test]
fn populate_makes_every_entry_resolvable() {
    let mut links = Links::new();
    let mut ranks = Ranks::new();
    for i in 0..25u32 {
        assert!(links.add(i, format!("node {}", i)));
        if i % 2 == 0 {
            assert!(ranks.add(i, u64::from(i) * 1000));
        }
    }
    let mut store = CacheStore::new();
    populate_addrs(&mut store, &links, &ranks).unwrap();
    for i in 0..25u32 {
        match lookup_addr(&store, &format!("node {}", i)) {
            Node::Found(id, _) => assert_eq!(id, i),
            _ => panic!("every populated title must resolve exactly"),
        }
    }
}

#[test]
fn populate_rejects_a_duplicate_title_and_keeps_prior_rows() {
    let mut store = CacheStore::new();
    insert_title(&mut store, "node 3".to_string(), 99).unwrap();
    let mut links = Links::new();
    for i in 0..5u32 {
        links.add(i, format!("node {}", i));
    }
    let ranks = Ranks::new();
    let r = populate_addrs(&mut store, &links, &ranks);
    assert_eq!(r.unwrap_err(), StorageError::ConstraintViolation);
    match lookup_addr(&store, "node 3") {
        Node::Found(id, _) => assert_eq!(id, 99),
        _ => panic!("the pre-existing row must stand"),
    }
    assert!(matches!(lookup_addr(&store, "node 0"), Node::Unknown(_)));
}

#[test]
fn populate_twice_rejects_already_inserted_rows() {
    let mut links = Links::new();
    links.add(1, "Dog".to_string());
    let ranks = Ranks::new();
    let mut store = CacheStore::new();
    populate_addrs(&mut store, &links, &ranks).unwrap();
    let rerun = populate_addrs(&mut store, &links, &ranks);
    assert_eq!(rerun.unwrap_err(), StorageError::ConstraintViolation);
}
