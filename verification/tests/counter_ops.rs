use kvtree::engine::{Config, Engine};
use kvtree::errors::Error;

#[test]
fn increment_absent_key_encodes_one() {
    let engine = Engine::open(&Config { database_path: String::from("mem") }).unwrap();
    let tree = engine.open_tree(b"counters").unwrap();
    let v = tree.increment(b"hits").unwrap();
    assert_eq!(v, vec![0, 0, 0, 0, 0, 0, 0, 1]);
    assert_eq!(tree.get(b"hits").unwrap(), Some(vec![0, 0, 0, 0, 0, 0, 0, 1]));
}

#[test]
fn increment_sequence_strictly_increases() {
    let engine = Engine::open(&Config { database_path: String::from("mem") }).unwrap();
    let tree = engine.open_tree(b"counters").unwrap();
    let mut previous: u64 = 0;
    for expected in 1..=10u64 {
        let v = tree.increment(b"hits").unwrap();
        let bytes: [u8; 8] = v.as_slice().try_into().unwrap();
        let n = u64::from_be_bytes(bytes);
        assert_eq!(n, expected);
        assert!(n > previous);
        previous = n;
    }
}

#[test]
fn increment_counts_on_from_stored_value() {
    let engine = Engine::open(&Config { database_path: String::from("mem") }).unwrap();
    let tree = engine.open_tree(b"counters").unwrap();
    tree.insert(b"hits", &41u64.to_be_bytes()).unwrap();
    let v = tree.increment(b"hits").unwrap();
    assert_eq!(v, 42u64.to_be_bytes().to_vec());
}

#[test]
fn increment_treats_odd_width_value_as_zero() {
    let engine = Engine::open(&Config { database_path: String::from("mem") }).unwrap();
    let tree = engine.open_tree(b"counters").unwrap();
    tree.insert(b"hits", b"not a counter").unwrap();
    let v = tree.increment(b"hits").unwrap();
    assert_eq!(v, vec![0, 0, 0, 0, 0, 0, 0, 1]);
}

#[test]
fn increment_at_largest_count_errors() {
    let engine = Engine::open(&Config { database_path: String::from("mem") }).unwrap();
    let tree = engine.open_tree(b"counters").unwrap();
    tree.insert(b"hits", &u64::MAX.to_be_bytes()).unwrap();
    let r = tree.increment(b"hits");
    assert_eq!(r.err(), Some(Error::TransactionError));
    // the stored value is untouched
    assert_eq!(tree.get(b"hits").unwrap(), Some(u64::MAX.to_be_bytes().to_vec()));
}
