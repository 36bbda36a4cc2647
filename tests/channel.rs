use futures::channel::mpsc;
use futures::executor::LocalPool;
use futures::task::LocalSpawnExt;
use futures::{SinkExt, StreamExt};
use runtime_bench::channel::{
    buffer_for_capacity, task_role, tasks_for_pairs, Consumer, Message, Producer, Role,
};
use runtime_bench::schedule::{Action, JoinSchedule};

#[test]
fn producer_sends_payloads_then_one_sentinel() {
    let mut p = Producer::new(3);
    assert_eq!(p.next_message(), Some(Message::Payload(0)));
    assert_eq!(p.next_message(), Some(Message::Payload(1)));
    assert_eq!(p.next_message(), Some(Message::Payload(2)));
    assert_eq!(p.next_message(), Some(Message::End));
    assert_eq!(p.next_message(), None);
}

#[test]
fn empty_producer_sends_only_the_sentinel() {
    let mut p = Producer::new(0);
    assert_eq!(p.next_message(), Some(Message::End));
    assert_eq!(p.next_message(), None);
}

#[test]
fn consumer_stops_at_sentinel() {
    let mut c = Consumer::new();
    assert!(c.observe(Some(Message::Payload(7))));
    assert!(c.observe(Some(Message::Payload(8))));
    assert!(!c.observe(Some(Message::End)));
    assert_eq!(c.received(), 2);
    assert!(c.has_ended());
}

#[test]
fn consumer_stops_on_closed_channel() {
    let mut c = Consumer::new();
    assert!(c.observe(Some(Message::Payload(1))));
    assert!(!c.observe(None));
    assert_eq!(c.received(), 1);
    assert!(!c.has_ended());
}

#[test]
fn capacity_maps_to_buffer() {
    assert_eq!(buffer_for_capacity(1), 0);
    assert_eq!(buffer_for_capacity(1024), 1023);
}

#[test]
fn pairs_lay_out_tasks() {
    assert_eq!(tasks_for_pairs(2), Some(4));
    assert_eq!(tasks_for_pairs(0), Some(0));
    assert_eq!(tasks_for_pairs(usize::MAX), None);
    assert_eq!(task_role(0), (0, Role::Producer));
    assert_eq!(task_role(1), (0, Role::Consumer));
    assert_eq!(task_role(4), (2, Role::Producer));
    assert_eq!(task_role(5), (2, Role::Consumer));
}

async fn produce(mut tx: mpsc::Sender<Message>, total: usize) -> Consumer {
    let mut p = Producer::new(total);
    while let Some(m) = p.next_message() {
        let _ = tx.send(m).await;
    }
    Consumer::new()
}

async fn consume(mut rx: mpsc::Receiver<Message>, log: std::rc::Rc<std::cell::RefCell<Vec<usize>>>) -> Consumer {
    let mut c = Consumer::new();
    loop {
        let item = rx.next().await;
        if let Some(Message::Payload(v)) = item {
            log.borrow_mut().push(v);
        }
        if !c.observe(item) {
            break;
        }
    }
    c
}

fn run_pairs(pairs: usize, total: usize, capacity: usize) -> Vec<(Consumer, Vec<usize>)> {
    let mut pool = LocalPool::new();
    let spawner = pool.spawner();
    let n = tasks_for_pairs(pairs).unwrap();
    let mut schedule = JoinSchedule::new(n);
    let mut senders = Vec::new();
    let mut receivers = Vec::new();
    let mut logs = Vec::new();
    for _ in 0..pairs {
        let (tx, rx) = mpsc::channel::<Message>(buffer_for_capacity(capacity));
        senders.push(Some(tx));
        receivers.push(Some(rx));
        logs.push(std::rc::Rc::new(std::cell::RefCell::new(Vec::new())));
    }
    let mut handles = Vec::new();
    let mut results = Vec::new();
    loop {
        match schedule.next_action() {
            Action::Spawn(k) => {
                let (pair, role) = task_role(k);
                let fut = match role {
                    Role::Producer => {
                        spawner.spawn_local_with_handle(produce(senders[pair].take().unwrap(), total))
                    }
                    Role::Consumer => spawner.spawn_local_with_handle(consume(
                        receivers[pair].take().unwrap(),
                        logs[pair].clone(),
                    )),
                };
                handles.push(Some(fut.unwrap()));
            }
            Action::Join(k) => {
                let h = handles[k].take().unwrap();
                let c = pool.run_until(h);
                if task_role(k).1 == Role::Consumer {
                    results.push((c, logs[task_role(k).0].borrow().clone()));
                }
            }
            Action::Finished => break,
        }
    }
    results
}

#[test]
fn two_pairs_drain_every_payload() {
    let results = run_pairs(2, 100, 4);
    assert_eq!(results.len(), 2);
    let mut total = 0;
    for (c, log) in &results {
        assert_eq!(c.received(), 100);
        assert!(c.has_ended());
        assert_eq!(*log, (0..100).collect::<Vec<usize>>());
        total += c.received();
    }
    assert_eq!(total, 200);
}

#[test]
fn capacity_one_pair_keeps_order() {
    let results = run_pairs(1, 50, 1);
    let (c, log) = &results[0];
    assert_eq!(c.received(), 50);
    assert!(c.has_ended());
    assert_eq!(*log, (0..50).collect::<Vec<usize>>());
}

#[test]
fn no_messages_only_sentinel() {
    let results = run_pairs(1, 0, 4);
    let (c, log) = &results[0];
    assert_eq!(c.received(), 0);
    assert!(c.has_ended());
    assert!(log.is_empty());
}
