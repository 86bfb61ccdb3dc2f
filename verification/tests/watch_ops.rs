use kvtree::engine::{Config, Engine};

#[test]
fn watch_fires_on_matching_insert() {
    let engine = Engine::open(&Config { database_path: String::from("mem") }).unwrap();
    let tree = engine.open_tree(b"t").unwrap();
    let signal = tree.watch_prefix(b"user/1");
    tree.insert(b"user/1/name", b"n").unwrap();
    assert!(signal.wait());
}

#[test]
fn watch_ignores_unrelated_insert() {
    let engine = Engine::open(&Config { database_path: String::from("mem") }).unwrap();
    let tree = engine.open_tree(b"t").unwrap();
    let signal = tree.watch_prefix(b"user/1");
    tree.insert(b"user/2/name", b"n").unwrap();
    assert!(!signal.poll());
}

#[test]
fn watch_does_not_replay_prior_writes() {
    let engine = Engine::open(&Config { database_path: String::from("mem") }).unwrap();
    let tree = engine.open_tree(b"t").unwrap();
    tree.insert(b"user/1/name", b"n").unwrap();
    let signal = tree.watch_prefix(b"user/1");
    assert!(!signal.poll());
}

#[test]
fn watch_fires_at_most_once() {
    let engine = Engine::open(&Config { database_path: String::from("mem") }).unwrap();
    let tree = engine.open_tree(b"t").unwrap();
    let signal = tree.watch_prefix(b"user/1");
    tree.insert(b"user/1/a", b"n").unwrap();
    tree.insert(b"user/1/b", b"n").unwrap();
    assert!(signal.wait());
    assert!(!signal.poll());
}

#[test]
fn watch_empty_prefix_matches_any_insert() {
    let engine = Engine::open(&Config { database_path: String::from("mem") }).unwrap();
    let tree = engine.open_tree(b"t").unwrap();
    let signal = tree.watch_prefix(b"");
    tree.insert(b"anything", b"n").unwrap();
    assert!(signal.wait());
}

#[test]
fn remove_does_not_wake_watchers() {
    let engine = Engine::open(&Config { database_path: String::from("mem") }).unwrap();
    let tree = engine.open_tree(b"t").unwrap();
    tree.insert(b"user/1/name", b"n").unwrap();
    let signal = tree.watch_prefix(b"user/1");
    tree.remove(b"user/1/name").unwrap();
    assert!(!signal.poll());
}

#[test]
fn abandoned_watcher_is_harmless() {
    let engine = Engine::open(&Config { database_path: String::from("mem") }).unwrap();
    let tree = engine.open_tree(b"t").unwrap();
    let signal = tree.watch_prefix(b"user/1");
    drop(signal);
    tree.insert(b"user/1/name", b"n").unwrap();
    assert_eq!(tree.get(b"user/1/name").unwrap(), Some(b"n".to_vec()));
}

#[test]
fn watch_fires_across_handles_of_one_namespace() {
    let engine = Engine::open(&Config { database_path: String::from("mem") }).unwrap();
    let first = engine.open_tree(b"t").unwrap();
    let second = engine.open_tree(b"t").unwrap();
    let signal = first.watch_prefix(b"user/1");
    second.insert(b"user/1/name", b"n").unwrap();
    assert!(signal.wait());
}

#[test]
fn watch_is_scoped_to_its_namespace() {
    let engine = Engine::open(&Config { database_path: String::from("mem") }).unwrap();
    let one = engine.open_tree(b"one").unwrap();
    let two = engine.open_tree(b"two").unwrap();
    let signal = one.watch_prefix(b"k");
    two.insert(b"k1", b"v").unwrap();
    assert!(!signal.poll());
}
