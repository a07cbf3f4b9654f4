use vstd::prelude::*;

verus! {

/// Abstract state of a [`MessageQueue`]: the buffered items, the pending
/// waiters (both used as stacks: pushed and popped at the tail), whether the
/// queue has been closed, and its default wait bound in milliseconds.
pub ghost struct QueueModel<T> {
    pub buffer: Seq<T>,
    pub waiters: Seq<u64>,
    pub closed: bool,
    pub timeout_ms: u64,
}

/// What `enqueue` did with the offered item.
pub enum EnqueueEffect<T> {
    /// The queue was closed: the item was discarded.
    Dropped,
    /// A consumer was pending: the item was handed directly to the most
    /// recently registered waiter.
    Delivered { waiter: u64, item: T },
    /// No consumer was pending: the item was pushed onto the buffer stack.
    Buffered,
}

/// What `dequeue` found at call time.
pub enum DequeueStart<T> {
    /// The buffer was non-empty: the most recently buffered item, at once.
    Ready(T),
    /// The queue was already closed: the caller fails at once.
    Closed,
    /// Nothing was buffered: the caller was registered as a pending waiter
    /// and suspends for at most `timeout_ms` milliseconds.
    Waiting { waiter: u64, timeout_ms: u64 },
}

/// A per-request hand-off buffer between the frame-arrival context (producer)
/// and the waiting request context (consumer).
///
/// Both the item buffer and the pending-waiter list behave as stacks: the
/// most recently produced item is consumed first, and the most recently
/// registered waiter is served first. Waiters are identified by caller-chosen
/// tokens; the blocking part of a wait is resolved by later events
/// (`enqueue` delivering, `expire_waiter`, or `close`).
pub struct MessageQueue<T> {
    pub messages: Vec<T>,
    pub waiting_resolvers: Vec<u64>,
    pub default_timeout_ms: u64,
    pub closed: bool,
}

/// State after `enqueue`, and what it returns.
pub open spec fn spec_enqueue<T>(q: QueueModel<T>, item: T) -> (QueueModel<T>, EnqueueEffect<T>) {
    if q.closed {
        (q, EnqueueEffect::Dropped)
    } else if q.waiters.len() > 0 {
        (
            QueueModel { waiters: q.waiters.drop_last(), ..q },
            EnqueueEffect::Delivered { waiter: q.waiters.last(), item },
        )
    } else {
        (QueueModel { buffer: q.buffer.push(item), ..q }, EnqueueEffect::Buffered)
    }
}

/// State after `dequeue_with_timeout`, and what it returns.
pub open spec fn spec_dequeue<T>(q: QueueModel<T>, waiter: u64, timeout_ms: u64) -> (
    QueueModel<T>,
    DequeueStart<T>,
) {
    if q.closed {
        (q, DequeueStart::Closed)
    } else if q.buffer.len() > 0 {
        (QueueModel { buffer: q.buffer.drop_last(), ..q }, DequeueStart::Ready(q.buffer.last()))
    } else {
        (
            QueueModel { waiters: q.waiters.push(waiter), ..q },
            DequeueStart::Waiting { waiter, timeout_ms },
        )
    }
}

/// The pending-waiter stack with every entry for `waiter` withdrawn.
pub open spec fn remove_waiter(s: Seq<u64>, waiter: u64) -> Seq<u64>
    decreases s.len(),
{
    if s.len() == 0 {
        Seq::empty()
    } else if s.last() == waiter {
        remove_waiter(s.drop_last(), waiter)
    } else {
        remove_waiter(s.drop_last(), waiter).push(s.last())
    }
}

/// State after a waiter's timeout fires: the waiter is no longer pending.
pub open spec fn spec_expire<T>(q: QueueModel<T>, waiter: u64) -> QueueModel<T> {
    QueueModel { waiters: remove_waiter(q.waiters, waiter), ..q }
}

/// State after `close`: closed, with buffer and pending waiters discarded.
pub open spec fn spec_close<T>(q: QueueModel<T>) -> QueueModel<T> {
    QueueModel { buffer: Seq::empty(), waiters: Seq::empty(), closed: true, ..q }
}

impl<T> MessageQueue<T> {
    /// The abstract state this queue currently holds.
    pub open spec fn model(self) -> QueueModel<T> {
        QueueModel {
            buffer: self.messages@,
            waiters: self.waiting_resolvers@,
            closed: self.closed,
            timeout_ms: self.default_timeout_ms,
        }
    }

    /// A fresh, open, empty queue with the given default wait bound.
    pub fn new(timeout_ms: u64) -> (q: Self)
        ensures
            q.model() == (QueueModel::<T> {
                buffer: Seq::empty(),
                waiters: Seq::empty(),
                closed: false,
                timeout_ms,
            }),
    {
        MessageQueue {
            messages: Vec::new(),
            waiting_resolvers: Vec::new(),
            default_timeout_ms: timeout_ms,
            closed: false,
        }
    }

    /// Offers an item. Never blocks and never fails: a closed queue discards
    /// it, a pending waiter (most recent first) receives it directly, and
    /// otherwise it is buffered.
    pub fn enqueue(&mut self, item: T) -> (effect: EnqueueEffect<T>)
        ensures
            (final(self).model(), effect) == spec_enqueue(old(self).model(), item),
    {
        if self.closed {
            return EnqueueEffect::Dropped;
        }
        match self.waiting_resolvers.pop() {
            Some(waiter) => EnqueueEffect::Delivered { waiter, item },
            None => {
                self.messages.push(item);
                EnqueueEffect::Buffered
            },
        }
    }

    /// `dequeue_with_timeout` with this queue's default wait bound.
    pub fn dequeue(&mut self, waiter: u64) -> (start: DequeueStart<T>)
        ensures
            (final(self).model(), start) == spec_dequeue(
                old(self).model(),
                waiter,
                old(self).default_timeout_ms,
            ),
    {
        let timeout_ms = self.default_timeout_ms;
        self.dequeue_with_timeout(waiter, timeout_ms)
    }

    /// Claims the most recently buffered item if one is present; otherwise
    /// registers `waiter` as the most recent pending consumer, to be resolved
    /// by a later `enqueue`, `expire_waiter` or `close`. Fails at once if the
    /// queue is already closed.
    pub fn dequeue_with_timeout(&mut self, waiter: u64, timeout_ms: u64) -> (start: DequeueStart<
        T,
    >)
        ensures
            (final(self).model(), start) == spec_dequeue(old(self).model(), waiter, timeout_ms),
    {
        if self.closed {
            return DequeueStart::Closed;
        }
        match self.messages.pop() {
            Some(item) => DequeueStart::Ready(item),
            None => {
                self.waiting_resolvers.push(waiter);
                DequeueStart::Waiting { waiter, timeout_ms }
            },
        }
    }

    /// Withdraws a waiter whose timeout elapsed; it observes the timeout
    /// failure and will no longer be served by a later `enqueue`.
    pub fn expire_waiter(&mut self, waiter: u64)
        ensures
            final(self).model() == spec_expire(old(self).model(), waiter),
    {
        let mut kept: Vec<u64> = Vec::new();
        let mut i: usize = 0;
        proof {
            assert(self.waiting_resolvers@.take(0) =~= Seq::<u64>::empty());
        }
        while i < self.waiting_resolvers.len()
            invariant
                i <= self.waiting_resolvers.len(),
                kept@ == remove_waiter(self.waiting_resolvers@.take(i as int), waiter),
            decreases self.waiting_resolvers.len() - i,
        {
            let w = self.waiting_resolvers[i];
            proof {
                let pre = self.waiting_resolvers@.take(i as int);
                let cur = self.waiting_resolvers@.take(i + 1);
                assert(cur =~= pre.push(w));
                assert(cur.drop_last() =~= pre);
                assert(cur.last() == w);
            }
            if w != waiter {
                kept.push(w);
            }
            i += 1;
        }
        proof {
            assert(self.waiting_resolvers@.take(self.waiting_resolvers@.len() as int)
                =~= self.waiting_resolvers@);
        }
        self.waiting_resolvers = kept;
    }

    /// Marks the queue closed, discards every pending waiter (each observes
    /// the closed failure) and clears the buffer. Idempotent.
    pub fn close(&mut self)
        ensures
            final(self).model() == spec_close(old(self).model()),
    {
        self.closed = true;
        self.waiting_resolvers.clear();
        self.messages.clear();
    }
}

/// Stack ordering of buffered items: with no consumer pending, enqueueing `a`
/// and then `b` and then dequeueing yields `b`, not `a`.
pub proof fn lemma_enqueue_dequeue_stack_order<T>(q: QueueModel<T>, a: T, b: T, waiter: u64, timeout_ms: u64)
    requires
        !q.closed,
        q.waiters.len() == 0,
    ensures
        spec_dequeue(spec_enqueue(spec_enqueue(q, a).0, b).0, waiter, timeout_ms).1
            == DequeueStart::<T>::Ready(b),
{
}

/// Stack ordering of pending consumers: with two consumers blocked (the first
/// registered before the second), an arriving item is handed to the second,
/// and the first remains pending.
pub proof fn lemma_waiting_consumer_stack_order<T>(
    q: QueueModel<T>,
    w1: u64,
    w2: u64,
    x: T,
    timeout_ms: u64,
)
    requires
        !q.closed,
        q.buffer.len() == 0,
        q.waiters.len() == 0,
    ensures
        ({
            let q1 = spec_dequeue(q, w1, timeout_ms).0;
            let q2 = spec_dequeue(q1, w2, timeout_ms).0;
            &&& spec_dequeue(q, w1, timeout_ms).1 == (DequeueStart::<T>::Waiting {
                waiter: w1,
                timeout_ms,
            })
            &&& spec_dequeue(q1, w2, timeout_ms).1 == (DequeueStart::<T>::Waiting {
                waiter: w2,
                timeout_ms,
            })
            &&& spec_enqueue(q2, x).1 == (EnqueueEffect::Delivered { waiter: w2, item: x })
            &&& spec_enqueue(q2, x).0.waiters == seq![w1]
        }),
{
    let q1 = spec_dequeue(q, w1, timeout_ms).0;
    let q2 = spec_dequeue(q1, w2, timeout_ms).0;
    assert(q2.waiters == seq![w1, w2]);
    assert(q2.waiters.drop_last() == seq![w1]);
}

/// Closing twice leaves the same state as closing once.
pub proof fn lemma_close_idempotent<T>(q: QueueModel<T>)
    ensures
        spec_close(spec_close(q)) == spec_close(q),
{
}

} // verus!
