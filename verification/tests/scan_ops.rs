use kvtree::engine::{Config, Engine};
use std::time::{Duration, Instant};

#[test]
fn iter_yields_ascending_key_order() {
    let engine = Engine::open(&Config { database_path: String::from("mem") }).unwrap();
    let tree = engine.open_tree(b"t").unwrap();
    tree.insert(b"b", b"2").unwrap();
    tree.insert(b"c", b"3").unwrap();
    tree.insert(b"a", b"1").unwrap();
    let mut stream = tree.iter();
    let mut seen: Vec<(Vec<u8>, Vec<u8>)> = Vec::new();
    while let Some(pair) = stream.next() {
        seen.push(pair);
    }
    assert_eq!(
        seen,
        vec![
            (b"a".to_vec(), b"1".to_vec()),
            (b"b".to_vec(), b"2".to_vec()),
            (b"c".to_vec(), b"3".to_vec()),
        ]
    );
}

#[test]
fn iter_from_forward_starts_at_key() {
    let engine = Engine::open(&Config { database_path: String::from("mem") }).unwrap();
    let tree = engine.open_tree(b"t").unwrap();
    tree.insert(b"a", b"1").unwrap();
    tree.insert(b"b", b"2").unwrap();
    tree.insert(b"c", b"3").unwrap();
    let mut stream = tree.iter_from(b"b", false);
    let mut keys: Vec<Vec<u8>> = Vec::new();
    while let Some((k, _)) = stream.next() {
        keys.push(k);
    }
    assert_eq!(keys, vec![b"b".to_vec(), b"c".to_vec()]);
}

#[test]
fn iter_from_backwards_descends_from_key() {
    let engine = Engine::open(&Config { database_path: String::from("mem") }).unwrap();
    let tree = engine.open_tree(b"t").unwrap();
    tree.insert(b"a", b"1").unwrap();
    tree.insert(b"b", b"2").unwrap();
    tree.insert(b"c", b"3").unwrap();
    let mut stream = tree.iter_from(b"b", true);
    let mut keys: Vec<Vec<u8>> = Vec::new();
    while let Some((k, _)) = stream.next() {
        keys.push(k);
    }
    assert_eq!(keys, vec![b"b".to_vec(), b"a".to_vec()]);
}

#[test]
fn iter_from_backwards_between_keys() {
    let engine = Engine::open(&Config { database_path: String::from("mem") }).unwrap();
    let tree = engine.open_tree(b"t").unwrap();
    tree.insert(b"a", b"1").unwrap();
    tree.insert(b"c", b"3").unwrap();
    let mut stream = tree.iter_from(b"b", true);
    let mut keys: Vec<Vec<u8>> = Vec::new();
    while let Some((k, _)) = stream.next() {
        keys.push(k);
    }
    assert_eq!(keys, vec![b"a".to_vec()]);
}

#[test]
fn iter_from_empty_key_scans_everything() {
    let engine = Engine::open(&Config { database_path: String::from("mem") }).unwrap();
    let tree = engine.open_tree(b"t").unwrap();
    tree.insert(b"x", b"1").unwrap();
    tree.insert(b"y", b"2").unwrap();
    let mut stream = tree.iter_from(b"", false);
    let mut count = 0;
    while let Some(_) = stream.next() {
        count += 1;
    }
    assert_eq!(count, 2);
}

#[test]
fn iter_on_empty_tree_ends_at_once() {
    let engine = Engine::open(&Config { database_path: String::from("mem") }).unwrap();
    let tree = engine.open_tree(b"t").unwrap();
    let mut stream = tree.iter();
    assert_eq!(stream.next(), None);
}

#[test]
fn scan_prefix_yields_exactly_the_matches() {
    let engine = Engine::open(&Config { database_path: String::from("mem") }).unwrap();
    let tree = engine.open_tree(b"t").unwrap();
    tree.insert(b"pre1", b"1").unwrap();
    tree.insert(b"pre2", b"2").unwrap();
    tree.insert(b"zzz", b"3").unwrap();
    let mut stream = tree.scan_prefix(b"pre");
    let mut keys: Vec<Vec<u8>> = Vec::new();
    while let Some((k, _)) = stream.next() {
        keys.push(k);
    }
    assert_eq!(keys, vec![b"pre1".to_vec(), b"pre2".to_vec()]);
}

#[test]
fn scan_prefix_without_matches_is_empty() {
    let engine = Engine::open(&Config { database_path: String::from("mem") }).unwrap();
    let tree = engine.open_tree(b"t").unwrap();
    tree.insert(b"alpha", b"1").unwrap();
    let mut stream = tree.scan_prefix(b"zzz");
    assert_eq!(stream.next(), None);
}

#[test]
fn dropped_stream_releases_its_worker() {
    let engine = Engine::open(&Config { database_path: String::from("mem") }).unwrap();
    let tree = engine.open_tree(b"t").unwrap();
    // enough entries that the producer blocks on the bounded channel
    for i in 0..500u32 {
        let key = format!("key-{:05}", i);
        tree.insert(key.as_bytes(), b"v").unwrap();
    }
    let mut stream = tree.iter();
    assert!(stream.next().is_some());
    drop(stream);
    let start = Instant::now();
    while engine.active_scan_workers() > 0 && start.elapsed() < Duration::from_secs(10) {
        std::hint::spin_loop();
    }
    assert_eq!(engine.active_scan_workers(), 0);
}

#[test]
fn iter_from_beyond_last_key_is_empty() {
    let engine = Engine::open(&Config { database_path: String::from("mem") }).unwrap();
    let tree = engine.open_tree(b"t").unwrap();
    tree.insert(b"a", b"1").unwrap();
    let mut stream = tree.iter_from(b"zzz", false);
    assert_eq!(stream.next(), None);
}

#[test]
fn scan_prefix_where_every_key_matches() {
    let engine = Engine::open(&Config { database_path: String::from("mem") }).unwrap();
    let tree = engine.open_tree(b"t").unwrap();
    tree.insert(b"p-a", b"1").unwrap();
    tree.insert(b"p-b", b"2").unwrap();
    let mut stream = tree.scan_prefix(b"p-");
    let mut count: usize = 0;
    while let Some(_) = stream.next() {
        count += 1;
    }
    assert_eq!(count, 2);
}

#[test]
fn saturated_pool_still_serves_every_scan() {
    let engine = Engine::open(&Config { database_path: String::from("mem") }).unwrap();
    let tree = engine.open_tree(b"t").unwrap();
    for i in 0..150u32 {
        let key = format!("key-{:04}", i);
        tree.insert(key.as_bytes(), b"v").unwrap();
    }
    // more scans than the pool has workers: the overflow path must carry
    // the surplus, and every stream must still drain completely
    let mut streams = Vec::new();
    for _ in 0..12 {
        streams.push(tree.iter());
    }
    for stream in streams.iter_mut() {
        let mut count: usize = 0;
        while let Some(_) = stream.next() {
            count += 1;
        }
        assert_eq!(count, 150);
    }
}
