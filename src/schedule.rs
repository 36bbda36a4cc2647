//! The skeleton every driver shares: submit all tasks, then await each handle in
//! submission order, and only then stop the timer.
use vstd::prelude::*;

verus! {

/// What a driver does next.
#[derive(Clone, Copy, Debug, PartialEq, Eq, Structural)]
pub enum Action {
    /// Submit task `k` to the scheduler and keep its handle.
    Spawn(usize),
    /// Await the handle of task `k`.
    Join(usize),
    /// Every task has been awaited: the run is over.
    Finished,
}

/// The `step`-th action of a run of `total` tasks: every spawn, then every join,
/// both in task order, then the end.
pub open spec fn action_spec(total: nat, step: nat) -> Action {
    if step < total {
        Action::Spawn(step as usize)
    } else if step < 2 * total {
        Action::Join((step - total) as usize)
    } else {
        Action::Finished
    }
}

/// The order in which a driver submits and awaits `total` tasks.
pub struct JoinSchedule {
    total: usize,
    spawned: usize,
    joined: usize,
}

impl JoinSchedule {
    /// Number of actions taken so far (it stays put once the run is over).
    pub closed spec fn step(&self) -> nat {
        (self.spawned + self.joined) as nat
    }

    pub closed spec fn total_spec(&self) -> nat {
        self.total as nat
    }

    pub closed spec fn wf(&self) -> bool {
        &&& self.spawned <= self.total
        &&& self.joined <= self.spawned
        &&& self.joined > 0 ==> self.spawned == self.total
    }

    /// A schedule of `total` tasks that has done nothing yet.
    pub fn new(total: usize) -> (r: JoinSchedule)
        ensures
            r.wf(),
            r.step() == 0,
            r.total_spec() == total,
    {
        JoinSchedule { total, spawned: 0, joined: 0 }
    }

    /// Number of tasks the schedule runs.
    pub fn total(&self) -> (r: usize)
        ensures
            r == self.total_spec(),
    {
        self.total
    }

    /// The next action, which the driver then carries out.
    pub fn next_action(&mut self) -> (r: Action)
        requires
            old(self).wf(),
        ensures
            final(self).wf(),
            final(self).total_spec() == old(self).total_spec(),
            r == action_spec(old(self).total_spec(), old(self).step()),
            r is Finished ==> final(self).step() == old(self).step(),
            !(r is Finished) ==> final(self).step() == old(self).step() + 1,
    {
        if self.spawned < self.total {
            let k = self.spawned;
            self.spawned = self.spawned + 1;
            Action::Spawn(k)
        } else if self.joined < self.total {
            let k = self.joined;
            self.joined = self.joined + 1;
            Action::Join(k)
        } else {
            Action::Finished
        }
    }
}

/// A run submits every task before it awaits any, awaits each task once and after
/// submitting it, and is over only once every task has been awaited.
pub proof fn lemma_spawn_before_join(total: nat)
    ensures
        forall|a: nat, b: nat|
            #![trigger action_spec(total, a), action_spec(total, b)]
            a < b && action_spec(total, b) is Spawn ==> action_spec(total, a) is Spawn,
        forall|k: nat| k < total ==> #[trigger] action_spec(total, k) == Action::Spawn(k as usize)
            && action_spec(total, total + k) == Action::Join(k as usize),
        forall|s: nat| #[trigger] action_spec(total, s) is Finished <==> s >= 2 * total,
{
}

} // verus!
