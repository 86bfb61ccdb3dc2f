use kvtree::engine::{Config, Engine};
use kvtree::errors::Error;

#[test]
fn insert_then_get_returns_value() {
    let engine = Engine::open(&Config { database_path: String::from("mem") }).unwrap();
    let tree = engine.open_tree(b"t").unwrap();
    tree.insert(b"alpha", b"one").unwrap();
    assert_eq!(tree.get(b"alpha").unwrap(), Some(b"one".to_vec()));
}

#[test]
fn insert_overwrites_value() {
    let engine = Engine::open(&Config { database_path: String::from("mem") }).unwrap();
    let tree = engine.open_tree(b"t").unwrap();
    tree.insert(b"alpha", b"one").unwrap();
    tree.insert(b"alpha", b"two").unwrap();
    assert_eq!(tree.get(b"alpha").unwrap(), Some(b"two".to_vec()));
}

#[test]
fn get_absent_returns_none() {
    let engine = Engine::open(&Config { database_path: String::from("mem") }).unwrap();
    let tree = engine.open_tree(b"t").unwrap();
    assert_eq!(tree.get(b"missing").unwrap(), None);
}

#[test]
fn remove_then_get_returns_none() {
    let engine = Engine::open(&Config { database_path: String::from("mem") }).unwrap();
    let tree = engine.open_tree(b"t").unwrap();
    tree.insert(b"alpha", b"one").unwrap();
    tree.remove(b"alpha").unwrap();
    assert_eq!(tree.get(b"alpha").unwrap(), None);
}

#[test]
fn remove_absent_is_noop() {
    let engine = Engine::open(&Config { database_path: String::from("mem") }).unwrap();
    let tree = engine.open_tree(b"t").unwrap();
    tree.remove(b"never-there").unwrap();
    assert_eq!(tree.get(b"never-there").unwrap(), None);
}

#[test]
fn open_tree_twice_shares_state() {
    let engine = Engine::open(&Config { database_path: String::from("mem") }).unwrap();
    let first = engine.open_tree(b"shared").unwrap();
    let second = engine.open_tree(b"shared").unwrap();
    first.insert(b"k", b"v").unwrap();
    assert_eq!(second.get(b"k").unwrap(), Some(b"v".to_vec()));
}

#[test]
fn distinct_trees_are_independent() {
    let engine = Engine::open(&Config { database_path: String::from("mem") }).unwrap();
    let one = engine.open_tree(b"one").unwrap();
    let two = engine.open_tree(b"two").unwrap();
    one.insert(b"k", b"v").unwrap();
    assert_eq!(two.get(b"k").unwrap(), None);
}

#[test]
fn namespace_limit_is_enforced() {
    let engine = Engine::open(&Config { database_path: String::from("mem") }).unwrap();
    for i in 0..128u32 {
        let name = format!("space-{}", i);
        engine.open_tree(name.as_bytes()).unwrap();
    }
    let overflow = engine.open_tree(b"one-too-many");
    assert_eq!(overflow.err(), Some(Error::StorageOpenError));
    // an already existing namespace still opens
    engine.open_tree(b"space-7").unwrap();
}

#[test]
fn flush_succeeds() {
    let engine = Engine::open(&Config { database_path: String::from("mem") }).unwrap();
    let tree = engine.open_tree(b"t").unwrap();
    tree.insert(b"k", b"v").unwrap();
    engine.flush().unwrap();
    assert_eq!(tree.get(b"k").unwrap(), Some(b"v".to_vec()));
}
