use kvtree::engine::{Config, Engine};
use std::collections::HashSet;
use std::sync::Arc;

#[test]
fn concurrent_increments_never_repeat_a_value() {
    let engine = Engine::open(&Config { database_path: String::from("mem") }).unwrap();
    let tree = Arc::new(engine.open_tree(b"counters").unwrap());
    let workers = threadpool::ThreadPool::new(4);
    let (tx, rx) = crossbeam::channel::unbounded::<Vec<u8>>();
    for _ in 0..4 {
        let tree = Arc::clone(&tree);
        let tx = tx.clone();
        workers.execute(move || {
            for _ in 0..25 {
                let v = tree.increment(b"hits").unwrap();
                tx.send(v).unwrap();
            }
        });
    }
    drop(tx);
    workers.join();
    let mut seen: HashSet<Vec<u8>> = HashSet::new();
    let mut count = 0;
    while let Ok(v) = rx.recv() {
        assert!(seen.insert(v), "an increment result appeared twice");
        count += 1;
    }
    assert_eq!(count, 100);
    let last = tree.get(b"hits").unwrap().unwrap();
    assert_eq!(last, 100u64.to_be_bytes().to_vec());
}

#[test]
fn concurrent_scans_and_writes_settle() {
    let engine = Engine::open(&Config { database_path: String::from("mem") }).unwrap();
    let tree = Arc::new(engine.open_tree(b"t").unwrap());
    for i in 0..50u32 {
        let key = format!("k{:03}", i);
        tree.insert(key.as_bytes(), b"v").unwrap();
    }
    let workers = threadpool::ThreadPool::new(3);
    for _ in 0..3 {
        let tree = Arc::clone(&tree);
        workers.execute(move || {
            let mut stream = tree.iter();
            let mut n = 0;
            while let Some(_) = stream.next() {
                n += 1;
            }
            assert_eq!(n, 50);
        });
    }
    workers.join();
}
