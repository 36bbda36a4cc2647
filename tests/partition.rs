use futures::executor::LocalPool;
use futures::task::LocalSpawnExt;
use futures_lite::future::yield_now;
use runtime_bench::partition::{claim_index, Partitioner};
use std::cell::RefCell;
use std::rc::Rc;

#[test]
fn claim_index_decides_by_total() {
    assert_eq!(claim_index(0, 3), Some(0));
    assert_eq!(claim_index(2, 3), Some(2));
    assert_eq!(claim_index(3, 3), None);
    assert_eq!(claim_index(0, 0), None);
}

#[test]
fn partitioner_hands_out_each_index_once() {
    let p = Partitioner::new(5);
    assert_eq!(p.total(), 5);
    let claimed: Vec<usize> = (0..5).map(|_| p.claim().unwrap()).collect();
    assert_eq!(claimed, vec![0, 1, 2, 3, 4]);
    assert_eq!(p.claim(), None);
    assert_eq!(p.claim(), None);
}

#[test]
fn empty_partitioner_is_exhausted() {
    let p = Partitioner::new(0);
    assert_eq!(p.claim(), None);
}

#[test]
fn concurrent_claimers_split_the_work() {
    let total = 1000;
    let p = Rc::new(Partitioner::new(total));
    let log = Rc::new(RefCell::new(Vec::new()));
    let mut pool = LocalPool::new();
    let spawner = pool.spawner();
    for worker in 0..7usize {
        let p = p.clone();
        let log = log.clone();
        spawner
            .spawn_local(async move {
                while let Some(i) = p.claim() {
                    log.borrow_mut().push((worker, i));
                    yield_now().await;
                }
            })
            .unwrap();
    }
    pool.run();
    let log = log.borrow();
    let mut indices: Vec<usize> = log.iter().map(|&(_, i)| i).collect();
    indices.sort();
    assert_eq!(indices, (0..total).collect::<Vec<usize>>());
    let workers: std::collections::BTreeSet<usize> = log.iter().map(|&(w, _)| w).collect();
    assert!(workers.len() > 1);
    assert_eq!(p.claim(), None);
}
