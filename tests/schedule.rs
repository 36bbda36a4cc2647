use runtime_bench::schedule::{Action, JoinSchedule};

#[test]
fn no_tasks_finishes_at_once() {
    let mut s = JoinSchedule::new(0);
    assert_eq!(s.next_action(), Action::Finished);
    assert_eq!(s.next_action(), Action::Finished);
}

#[test]
fn spawns_all_then_joins_in_order() {
    let mut s = JoinSchedule::new(3);
    assert_eq!(s.total(), 3);
    let mut actions = Vec::new();
    loop {
        let a = s.next_action();
        actions.push(a);
        if a == Action::Finished {
            break;
        }
    }
    assert_eq!(
        actions,
        vec![
            Action::Spawn(0),
            Action::Spawn(1),
            Action::Spawn(2),
            Action::Join(0),
            Action::Join(1),
            Action::Join(2),
            Action::Finished,
        ]
    );
}
