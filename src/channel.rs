//! The two ends of a producer/consumer pair: what the producer sends, and how the
//! consumer reacts to what it receives. The channel between them is FIFO and
//! bounded; the pair closes it with one end-of-stream sentinel.
use vstd::prelude::*;

verus! {

/// An item on the channel: a payload, or the sentinel that ends the stream.
#[derive(Clone, Copy, Debug, PartialEq, Eq, Structural)]
pub enum Message {
    Payload(usize),
    End,
}

/// Everything a producer of `total` payloads sends: `0 .. total`, then the sentinel.
pub open spec fn stream_spec(total: nat) -> Seq<Message> {
    Seq::new(total, |i: int| Message::Payload(i as usize)).push(Message::End)
}

/// Sends the payloads `0 .. total` in order, then one sentinel.
pub struct Producer {
    sent: usize,
    total: usize,
    ended: bool,
}

impl Producer {
    /// How many items of the stream have been handed out.
    pub closed spec fn position(&self) -> nat {
        if self.ended {
            self.sent as nat + 1
        } else {
            self.sent as nat
        }
    }

    pub closed spec fn total_spec(&self) -> nat {
        self.total as nat
    }

    pub closed spec fn wf(&self) -> bool {
        &&& self.sent <= self.total
        &&& self.ended ==> self.sent == self.total
    }

    /// A producer of `total` payloads that has sent nothing yet.
    pub fn new(total: usize) -> (r: Producer)
        ensures
            r.wf(),
            r.position() == 0,
            r.total_spec() == total,
    {
        Producer { sent: 0, total, ended: false }
    }

    /// The next item to send, or nothing once the sentinel has gone out.
    pub fn next_message(&mut self) -> (r: Option<Message>)
        requires
            old(self).wf(),
        ensures
            final(self).wf(),
            final(self).total_spec() == old(self).total_spec(),
            old(self).position() < stream_spec(old(self).total_spec()).len() ==> {
                &&& r == Some(stream_spec(old(self).total_spec())[old(self).position() as int])
                &&& final(self).position() == old(self).position() + 1
            },
            old(self).position() >= stream_spec(old(self).total_spec()).len() ==> {
                &&& r is None
                &&& final(self).position() == old(self).position()
            },
    {
        if self.sent < self.total {
            let m = Message::Payload(self.sent);
            self.sent = self.sent + 1;
            Some(m)
        } else if !self.ended {
            self.ended = true;
            Some(Message::End)
        } else {
            None
        }
    }
}

/// What a consumer has seen: the payloads in order, and whether the sentinel came.
pub open spec fn step_spec(state: (Seq<usize>, bool), m: Message) -> (Seq<usize>, bool) {
    if state.1 {
        state
    } else {
        match m {
            Message::Payload(v) => (state.0.push(v), false),
            Message::End => (state.0, true),
        }
    }
}

/// What a fresh consumer has seen after receiving `items` in order.
pub open spec fn drain_spec(items: Seq<Message>) -> (Seq<usize>, bool)
    decreases items.len(),
{
    if items.len() == 0 {
        (Seq::empty(), false)
    } else {
        step_spec(drain_spec(items.drop_last()), items.last())
    }
}

/// Receives until the sentinel, counting payloads.
pub struct Consumer {
    received: usize,
    ended: bool,
    seen: Ghost<Seq<usize>>,
}

impl Consumer {
    pub closed spec fn view(&self) -> (Seq<usize>, bool) {
        (self.seen@, self.ended)
    }

    pub closed spec fn wf(&self) -> bool {
        self.received == self.seen@.len()
    }

    /// A consumer that has received nothing yet.
    pub fn new() -> (r: Consumer)
        ensures
            r.wf(),
            r.view() == drain_spec(Seq::empty()),
    {
        Consumer { received: 0, ended: false, seen: Ghost(Seq::empty()) }
    }

    /// Number of payloads received so far.
    pub fn received(&self) -> (r: usize)
        requires
            self.wf(),
        ensures
            r == self.view().0.len(),
    {
        self.received
    }

    /// Whether the sentinel has been received.
    pub fn has_ended(&self) -> (r: bool)
        ensures
            r == self.view().1,
    {
        self.ended
    }

    /// Takes what one receive returned (`None`: the channel closed without a
    /// sentinel) and says whether to receive again.
    pub fn observe(&mut self, item: Option<Message>) -> (go_on: bool)
        requires
            old(self).wf(),
            !old(self).view().1,
            old(self).view().0.len() < usize::MAX,
        ensures
            final(self).wf(),
            go_on <==> item matches Some(Message::Payload(_)),
            item matches Some(m) ==> final(self).view() == step_spec(old(self).view(), m),
            item is None ==> final(self).view() == old(self).view(),
    {
        match item {
            Some(Message::Payload(v)) => {
                self.received = self.received + 1;
                self.seen = Ghost(self.seen@.push(v));
                true
            },
            Some(Message::End) => {
                self.ended = true;
                false
            },
            None => false,
        }
    }
}

/// The `buffer` argument that gives a channel with one sender exactly `capacity` slots:
/// a futures bounded channel holds `buffer` shared slots plus one per sender.
pub fn buffer_for_capacity(capacity: usize) -> (r: usize)
    requires
        capacity >= 1,
    ensures
        r + 1 == capacity,
{
    capacity - 1
}

/// The side of a producer/consumer pair that a task runs.
#[derive(Clone, Copy, Debug, PartialEq, Eq, Structural)]
pub enum Role {
    Producer,
    Consumer,
}

/// Number of tasks for `pairs` producer/consumer pairs, if it fits.
pub fn tasks_for_pairs(pairs: usize) -> (r: Option<usize>)
    ensures
        r is Some <==> 2 * pairs <= usize::MAX,
        r matches Some(n) ==> n == 2 * pairs,
{
    pairs.checked_mul(2)
}

/// Tasks are laid out pair by pair, the producer first: task `k` runs one side of
/// pair `k / 2`.
pub fn task_role(k: usize) -> (r: (usize, Role))
    ensures
        r.0 == k / 2,
        r.1 == (if k % 2 == 0 {
            Role::Producer
        } else {
            Role::Consumer
        }),
{
    if k % 2 == 0 {
        (k / 2, Role::Producer)
    } else {
        (k / 2, Role::Consumer)
    }
}

/// A producer's whole stream, passed through a FIFO channel, leaves its consumer with
/// exactly the payloads `0 .. total` in send order, and the consumer stops at the
/// sentinel and at nothing earlier: every item before it is a payload, on which the
/// consumer goes on, and the last is the one sentinel.
pub proof fn lemma_pair_delivers_in_order(total: nat)
    ensures
        stream_spec(total).len() == total + 1,
        forall|k: int| 0 <= k < total ==> #[trigger] stream_spec(total)[k] == Message::Payload(
            k as usize,
        ),
        stream_spec(total)[total as int] == Message::End,
        drain_spec(stream_spec(total)) == (Seq::new(total, |i: int| i as usize), true),
        forall|k: nat| k <= total ==> #[trigger] drain_spec(stream_spec(total).take(k as int))
            == (Seq::new(k, |i: int| i as usize), false),
{
    let s = stream_spec(total);
    assert forall|k: nat| k <= total implies #[trigger] drain_spec(s.take(k as int)) == (
        Seq::new(k, |i: int| i as usize),
        false,
    ) by {
        lemma_prefix_drain(total, k);
    }
    lemma_prefix_drain(total, total);
    assert(s.drop_last() =~= s.take(total as int));
}

proof fn lemma_prefix_drain(total: nat, k: nat)
    requires
        k <= total,
    ensures
        drain_spec(stream_spec(total).take(k as int)) == (Seq::new(k, |i: int| i as usize), false),
    decreases k,
{
    let s = stream_spec(total);
    if k == 0 {
        assert(s.take(0) =~= Seq::<Message>::empty());
        assert(Seq::new(0, |i: int| i as usize) =~= Seq::<usize>::empty());
    } else {
        lemma_prefix_drain(total, (k - 1) as nat);
        assert(s.take(k as int).drop_last() =~= s.take(k - 1));
        assert(Seq::new(k, |i: int| i as usize) =~= Seq::new((k - 1) as nat, |i: int| i as usize).push(
            (k - 1) as usize,
        ));
    }
}

} // verus!
