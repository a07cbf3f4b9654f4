use vstd::prelude::*;

use crate::codec::{parse_client_message, sp_client_message};
use crate::logging::LoggingService;
use crate::protocol::{ClientMessage, MessageView};
use crate::queue::{spec_dequeue, spec_enqueue, DequeueStart, EnqueueEffect, MessageQueue, QueueModel};

verus! {

/// One registered queue: its correlation id and its state.
pub type QueueEntry = (String, MessageQueue<ClientMessage>);

/// The default wait bound of a freshly created queue: ten minutes.
pub const QUEUE_TIMEOUT_MS: u64 = 600000;

/// The correlation id an inbound frame view carries.
pub open spec fn view_request_id(v: MessageView) -> Seq<char> {
    match v {
        MessageView::ResponseHeaders { request_id, .. } => request_id,
        MessageView::Chunk { request_id, .. } => request_id,
        MessageView::Error { request_id, .. } => request_id,
        MessageView::StreamClose { request_id } => request_id,
    }
}

/// The entries of `qs` whose id is not `id`, in order.
pub open spec fn remove_entries(qs: Seq<QueueEntry>, id: Seq<char>) -> Seq<QueueEntry>
    decreases qs.len(),
{
    if qs.len() == 0 {
        Seq::empty()
    } else if qs.first().0@ == id {
        remove_entries(qs.drop_first(), id)
    } else {
        seq![qs.first()] + remove_entries(qs.drop_first(), id)
    }
}

/// The entries of `qs` carry pairwise distinct correlation ids.
pub open spec fn entries_distinct(qs: Seq<QueueEntry>) -> bool {
    forall|i: int, j: int| 0 <= i < j < qs.len() ==> qs[i].0@ != qs[j].0@
}

/// Some entry of `qs` carries the id.
pub open spec fn contains_id(qs: Seq<QueueEntry>, id: Seq<char>) -> bool {
    exists|k: int| 0 <= k < qs.len() && qs[k].0@ == id
}

/// What `remove_entries` leaves: no entry with the id, the other entries as
/// they were; removing an absent id changes nothing.
pub proof fn lemma_remove_entries(qs: Seq<QueueEntry>, id: Seq<char>)
    ensures
        forall|k: int|
            0 <= k < remove_entries(qs, id).len() ==> (#[trigger] remove_entries(qs, id)[k]).0@
                != id && qs.contains(remove_entries(qs, id)[k]),
        entries_distinct(qs) ==> entries_distinct(remove_entries(qs, id)),
        !contains_id(qs, id) ==> remove_entries(qs, id) == qs,
        forall|x: Seq<char>|
            #[trigger] contains_id(remove_entries(qs, id), x) == (x != id && contains_id(qs, x)),
    decreases qs.len(),
{
    if qs.len() == 0 {
        assert(remove_entries(qs, id) =~= qs);
        assert(forall|x: Seq<char>|
            #[trigger] contains_id(remove_entries(qs, id), x) == (x != id && contains_id(qs, x)));
    } else {
        let pre = qs.drop_first();
        lemma_remove_entries(pre, id);
        let res = remove_entries(qs, id);
        let rpre = remove_entries(pre, id);
        assert(forall|k: int|
            0 <= k < pre.len() ==> pre[k] == qs[k + 1] && qs.contains(#[trigger] pre[k]));
        assert forall|k: int| 0 <= k < rpre.len() implies qs.contains(#[trigger] rpre[k]) by {
            assert(pre.contains(rpre[k]));
            let w = choose|w: int| 0 <= w < pre.len() && pre[w] == rpre[k];
            assert(qs[w + 1] == rpre[k]);
        }
        if qs.first().0@ == id {
            assert(contains_id(qs, id));
            assert(forall|k: int|
                0 <= k < res.len() ==> qs.contains(#[trigger] res[k]) && res[k].0@ != id);
        } else {
            assert(res == seq![qs.first()] + rpre);
            assert(res[0] == qs.first());
            assert(forall|k: int| 1 <= k < res.len() ==> res[k] == rpre[k - 1]);
            assert(forall|k: int|
                0 <= k < res.len() ==> qs.contains(#[trigger] res[k]) && res[k].0@ != id);
            if entries_distinct(qs) {
                assert(entries_distinct(pre));
                assert forall|i: int, j: int| 0 <= i < j < res.len() implies res[i].0@
                    != res[j].0@ by {
                    if i == 0 {
                        assert(pre.contains(rpre[j - 1]));
                        let w = choose|w: int| 0 <= w < pre.len() && pre[w] == rpre[j - 1];
                        assert(qs[0].0@ != qs[w + 1].0@);
                    }
                }
            }
            if !contains_id(qs, id) {
                assert(!contains_id(pre, id));
                assert(res =~= qs);
            }
        }
        assert forall|x: Seq<char>| #[trigger] contains_id(res, x) == (x != id && contains_id(
            qs,
            x,
        )) by {
            if contains_id(res, x) {
                let k = choose|k: int| 0 <= k < res.len() && res[k].0@ == x;
                assert(res[k].0@ != id);
                assert(qs.contains(res[k]));
                let w = choose|w: int| 0 <= w < qs.len() && qs[w] == res[k];
            }
            if x != id && contains_id(qs, x) {
                let k = choose|k: int| 0 <= k < qs.len() && qs[k].0@ == x;
                if k == 0 {
                    assert(qs.first().0@ == x);
                    assert(res[0] == qs.first());
                    assert(contains_id(res, x));
                } else {
                    assert(pre[k - 1].0@ == x);
                    assert(contains_id(pre, x));
                    assert(contains_id(rpre, x));
                    let w = choose|w: int| 0 <= w < rpre.len() && rpre[w].0@ == x;
                    if qs.first().0@ == id {
                        assert(res[w].0@ == x);
                    } else {
                        assert(res == seq![qs.first()] + rpre);
                        assert(seq![qs.first()].len() == 1);
                        assert(res[w + 1] == rpre[w]);
                        assert(res[w + 1].0@ == x);
                    }
                }
            }
        }
    }
}

/// What routing one raw frame text did.
pub enum RouteOutcome {
    /// The text was not a canonical frame: logged and dropped.
    ParseFailed,
    /// The frame carried an empty correlation id: logged and dropped.
    MissingRequestId,
    /// No live queue is registered under the frame's id: logged and dropped.
    UnknownRequestId,
    /// The frame reached its queue, with this effect.
    Routed(EnqueueEffect<ClientMessage>),
}

/// Owns the set of attached tunnel connections (as opaque outbound handles)
/// and the mapping from correlation id to its per-request queue, and routes
/// inbound frames into the right queue.
///
/// The connection list keeps insertion order and is never pruned: selection
/// is always the first handle ever added, even after its peer is gone.
pub struct ConnectionRegistry {
    pub logger: LoggingService,
    pub connections: Vec<u64>,
    pub message_queues: Vec<QueueEntry>,
}

impl ConnectionRegistry {
    /// Correlation ids of the tracked queues are pairwise distinct.
    pub open spec fn wf(self) -> bool {
        entries_distinct(self.message_queues@)
    }

    /// Some queue is registered under `id`.
    pub open spec fn has_queue(self, id: Seq<char>) -> bool {
        contains_id(self.message_queues@, id)
    }

    /// An empty registry: no connections, no queues.
    pub fn new(logger: LoggingService) -> (r: Self)
        ensures
            r.logger == logger,
            r.connections@ == Seq::<u64>::empty(),
            r.message_queues@ == Seq::<QueueEntry>::empty(),
            r.wf(),
    {
        ConnectionRegistry { logger, connections: Vec::new(), message_queues: Vec::new() }
    }

    /// Appends an outbound handle to the connection list.
    pub fn add_connection(&mut self, sender: u64)
        ensures
            final(self).connections@ == old(self).connections@.push(sender),
            final(self).message_queues == old(self).message_queues,
            final(self).logger == old(self).logger,
    {
        self.connections.push(sender);
    }

    /// A tunnel connection is gone: closes every tracked queue, whichever
    /// connection it belonged to, and clears the whole correlation map. The
    /// connection list itself is left as it is.
    pub fn remove_connection(&mut self)
        ensures
            final(self).connections == old(self).connections,
            final(self).logger == old(self).logger,
            final(self).message_queues@ == Seq::<QueueEntry>::empty(),
            final(self).wf(),
    {
        while self.message_queues.len() > 0
            invariant
                self.connections == old(self).connections,
                self.logger == old(self).logger,
            decreases self.message_queues.len(),
        {
            if let Some(mut entry) = self.message_queues.pop() {
                entry.1.close();
            }
        }
        proof {
            assert(self.message_queues@ =~= Seq::<QueueEntry>::empty());
        }
    }

    /// At least one tunnel connection has been attached.
    pub fn has_active_connections(&self) -> (r: bool)
        ensures
            r == (self.connections@.len() > 0),
    {
        self.connections.len() > 0
    }

    /// The outbound handle every request is dispatched on: the first
    /// connection ever added, dead or alive.
    pub fn get_first_connection(&self) -> (r: Option<u64>)
        ensures
            r == (if self.connections@.len() > 0 {
                Some(self.connections@[0])
            } else {
                None::<u64>
            }),
    {
        if self.connections.len() > 0 {
            Some(self.connections[0])
        } else {
            None
        }
    }

    /// The position of the queue registered under `id`, if any.
    fn find_queue_index(&self, id: &str) -> (r: Option<usize>)
        ensures
            match r {
                Some(k) => k < self.message_queues@.len() && self.message_queues@[k as int].0@
                    == id@,
                None => !self.has_queue(id@),
            },
    {
        let mut k: usize = 0;
        while k < self.message_queues.len()
            invariant
                k <= self.message_queues@.len(),
                forall|j: int| 0 <= j < k ==> self.message_queues@[j].0@ != id@,
            decreases self.message_queues@.len() - k,
        {
            if crate::codec::str_eq(self.message_queues[k].0.as_str(), id) {
                return Some(k);
            }
            k += 1;
        }
        None
    }

    /// Removes and closes the queue registered under `request_id`; does
    /// nothing if there is none.
    pub fn remove_message_queue(&mut self, request_id: &str)
        ensures
            final(self).connections == old(self).connections,
            final(self).logger == old(self).logger,
            final(self).message_queues@ == remove_entries(
                old(self).message_queues@,
                request_id@,
            ),
    {
        let ghost orig = self.message_queues@;
        let mut kept: Vec<QueueEntry> = Vec::new();
        proof {
            assert(orig.skip(orig.len() as int) =~= Seq::<QueueEntry>::empty());
            assert(orig.take(orig.len() as int) =~= orig);
        }
        while self.message_queues.len() > 0
            invariant
                self.connections == old(self).connections,
                self.logger == old(self).logger,
                self.message_queues@.len() <= orig.len(),
                self.message_queues@ == orig.take(self.message_queues@.len() as int),
                kept@ == remove_entries(orig.skip(self.message_queues@.len() as int), request_id@),
            decreases self.message_queues.len(),
        {
            let ghost pre_len = self.message_queues@.len() as int;
            if let Some(mut entry) = self.message_queues.pop() {
                proof {
                    assert(orig.take(pre_len).last() == orig[pre_len - 1]);
                    assert(orig.skip(pre_len - 1).drop_first() =~= orig.skip(pre_len));
                    assert(orig.skip(pre_len - 1).first() == orig[pre_len - 1]);
                    assert(orig.take(pre_len).drop_last() =~= orig.take(pre_len - 1));
                    assert(entry == orig[pre_len - 1]);
                }
                if crate::codec::str_eq(entry.0.as_str(), request_id) {
                    entry.1.close();
                } else {
                    kept.insert(0, entry);
                }
            }
        }
        proof {
            assert(orig.skip(0) =~= orig);
        }
        self.message_queues = kept;
    }

    /// Registers a fresh queue (ten-minute default wait) under `request_id`,
    /// replacing and closing any queue already held under that id.
    pub fn create_message_queue(&mut self, request_id: String)
        ensures
            final(self).connections == old(self).connections,
            final(self).logger == old(self).logger,
            final(self).message_queues@ == remove_entries(
                old(self).message_queues@,
                request_id@,
            ).push(final(self).message_queues@.last()),
            final(self).message_queues@.len() == remove_entries(
                old(self).message_queues@,
                request_id@,
            ).len() + 1,
            final(self).message_queues@.last().0 == request_id,
            final(self).message_queues@.last().1.model() == (QueueModel::<ClientMessage> {
                buffer: Seq::empty(),
                waiters: Seq::empty(),
                closed: false,
                timeout_ms: QUEUE_TIMEOUT_MS,
            }),
            old(self).wf() ==> final(self).wf(),
            final(self).has_queue(request_id@),
    {
        self.remove_message_queue(request_id.as_str());
        let queue = MessageQueue::<ClientMessage>::new(QUEUE_TIMEOUT_MS);
        proof {
            lemma_remove_entries(old(self).message_queues@, request_id@);
        }
        self.message_queues.push((request_id, queue));
        proof {
            let qs = self.message_queues@;
            assert(qs.drop_last() =~= remove_entries(old(self).message_queues@, request_id@));
            assert(qs =~= qs.drop_last().push(qs.last()));
        }
    }
}

/// Hands one inbound frame to its queue; never blocks and never fails.
pub fn route_message(queue: &mut MessageQueue<ClientMessage>, message: ClientMessage) -> (eff:
    EnqueueEffect<ClientMessage>)
    ensures
        (final(queue).model(), eff) == spec_enqueue(old(queue).model(), message),
{
    match message {
        ClientMessage::StreamClose { request_id } => queue.enqueue(
            ClientMessage::StreamClose { request_id },
        ),
        other => queue.enqueue(other),
    }
}

impl ConnectionRegistry {
    /// Decodes one raw frame text and routes it: a text that is not a
    /// canonical frame, an empty correlation id, or an unknown id is dropped
    /// without touching any queue; otherwise the frame is enqueued on the
    /// queue registered under its id.
    pub fn handle_incoming_message(&mut self, message_data: &str) -> (r: RouteOutcome)
        requires
            old(self).wf(),
        ensures
            final(self).connections == old(self).connections,
            final(self).logger == old(self).logger,
            final(self).wf(),
            match sp_client_message(message_data@) {
                None => *final(self) == *old(self) && r is ParseFailed,
                Some(mv) => {
                    let id = view_request_id(mv);
                    if id.len() == 0 {
                        *final(self) == *old(self) && r is MissingRequestId
                    } else if !old(self).has_queue(id) {
                        *final(self) == *old(self) && r is UnknownRequestId
                    } else {
                        let qs0 = old(self).message_queues@;
                        let qs1 = final(self).message_queues@;
                        &&& qs1.len() == qs0.len()
                        &&& forall|j: int| 0 <= j < qs0.len() ==> (#[trigger] qs1[j]).0 == qs0[j].0
                        &&& forall|j: int|
                            0 <= j < qs0.len() && qs0[j].0@ != id ==> (#[trigger] qs1[j])
                                == qs0[j]
                        &&& forall|x: Seq<char>| #[trigger]
                            final(self).has_queue(x) == old(self).has_queue(x)
                        &&& forall|x: Seq<char>|
                            x != id && old(self).has_queue(x)
                                ==> #[trigger] final(self).queue_at(x) == old(self).queue_at(x)
                        &&& exists|m: ClientMessage|
                            m@ == mv && (final(self).queue_at(id), r) == (
                            spec_enqueue(old(self).queue_at(id), m).0,
                            RouteOutcome::Routed(spec_enqueue(old(self).queue_at(id), m).1))
                    }
                },
            },
    {
        match parse_client_message(message_data) {
            None => RouteOutcome::ParseFailed,
            Some(msg) => {
                let rid = msg.get_request_id().clone();
                if rid.as_str().is_empty() {
                    return RouteOutcome::MissingRequestId;
                }
                match self.find_queue_index(rid.as_str()) {
                    None => RouteOutcome::UnknownRequestId,
                    Some(k) => {
                        let mut entry = self.message_queues.remove(k);
                        let eff = route_message(&mut entry.1, msg);
                        self.message_queues.insert(k, entry);
                        proof {
                            assert(self.message_queues@ =~= old(self).message_queues@.update(
                                k as int,
                                self.message_queues@[k as int],
                            ));
                            self.lemma_update_at(*old(self), k as int, rid@);
                        }
                        RouteOutcome::Routed(eff)
                    },
                }
            },
        }
    }
}


impl ConnectionRegistry {
    /// The state of the queue registered under `id` (meaningful when
    /// `wf()` holds and `has_queue(id)`).
    pub open spec fn queue_at(self, id: Seq<char>) -> QueueModel<ClientMessage> {
        let k = choose|k: int|
            0 <= k < self.message_queues@.len() && self.message_queues@[k].0@ == id;
        self.message_queues@[k].1.model()
    }

    /// Claims a buffered frame from the queue under `request_id`, or
    /// registers `waiter` on it; a missing queue counts as closed. `None`
    /// for the timeout means the queue's own default wait bound.
    pub fn queue_dequeue(&mut self, request_id: &str, waiter: u64, timeout_ms: Option<u64>) -> (r:
        DequeueStart<ClientMessage>)
        requires
            old(self).wf(),
        ensures
            final(self).wf(),
            final(self).connections == old(self).connections,
            final(self).logger == old(self).logger,
            final(self).message_queues@.len() == old(self).message_queues@.len(),
            forall|x: Seq<char>| #[trigger]
                final(self).has_queue(x) == old(self).has_queue(x),
            !old(self).has_queue(request_id@) ==> *final(self) == *old(self) && r is Closed,
            old(self).has_queue(request_id@) ==> ({
                let q0 = old(self).queue_at(request_id@);
                let tmo = match timeout_ms {
                    Some(t) => t,
                    None => q0.timeout_ms,
                };
                &&& (final(self).queue_at(request_id@), r) == spec_dequeue(q0, waiter, tmo)
                &&& forall|x: Seq<char>|
                    x != request_id@ && old(self).has_queue(x)
                        ==> #[trigger] final(self).queue_at(x) == old(self).queue_at(x)
            }),
    {
        match self.find_queue_index(request_id) {
            None => DequeueStart::Closed,
            Some(k) => {
                let mut entry = self.message_queues.remove(k);
                let r = match timeout_ms {
                    Some(t) => entry.1.dequeue_with_timeout(waiter, t),
                    None => entry.1.dequeue(waiter),
                };
                self.message_queues.insert(k, entry);
                proof {
                    self.lemma_update_at(*old(self), k as int, request_id@);
                }
                r
            },
        }
    }

    /// Withdraws `waiter` from the queue under `request_id` after its wait
    /// timed out; does nothing if the queue is gone.
    pub fn queue_expire(&mut self, request_id: &str, waiter: u64)
        requires
            old(self).wf(),
        ensures
            final(self).wf(),
            final(self).connections == old(self).connections,
            final(self).logger == old(self).logger,
            final(self).message_queues@.len() == old(self).message_queues@.len(),
            forall|x: Seq<char>| #[trigger]
                final(self).has_queue(x) == old(self).has_queue(x),
            !old(self).has_queue(request_id@) ==> *final(self) == *old(self),
            old(self).has_queue(request_id@) ==> ({
                &&& final(self).queue_at(request_id@) == crate::queue::spec_expire(
                    old(self).queue_at(request_id@),
                    waiter,
                )
                &&& forall|x: Seq<char>|
                    x != request_id@ && old(self).has_queue(x)
                        ==> #[trigger] final(self).queue_at(x) == old(self).queue_at(x)
            }),
    {
        match self.find_queue_index(request_id) {
            None => {},
            Some(k) => {
                let mut entry = self.message_queues.remove(k);
                entry.1.expire_waiter(waiter);
                self.message_queues.insert(k, entry);
                proof {
                    self.lemma_update_at(*old(self), k as int, request_id@);
                }
            },
        }
    }

    /// After replacing the entry at `k` (same id) the registry keeps its
    /// shape: well-formed, same ids, other queues untouched.
    proof fn lemma_update_at(self, pre: Self, k: int, id: Seq<char>)
        requires
            pre.wf(),
            0 <= k < pre.message_queues@.len(),
            pre.message_queues@[k].0@ == id,
            self.message_queues@ == pre.message_queues@.remove(k).insert(
                k,
                self.message_queues@[k],
            ),
            self.message_queues@.len() == pre.message_queues@.len(),
            self.message_queues@[k].0 == pre.message_queues@[k].0,
        ensures
            self.wf(),
            forall|x: Seq<char>| #[trigger] self.has_queue(x) == pre.has_queue(x),
            self.queue_at(id) == self.message_queues@[k].1.model(),
            pre.queue_at(id) == pre.message_queues@[k].1.model(),
            forall|x: Seq<char>|
                x != id && pre.has_queue(x) ==> #[trigger] self.queue_at(x) == pre.queue_at(x),
    {
        let qs0 = pre.message_queues@;
        let qs1 = self.message_queues@;
        assert(qs1 =~= qs0.update(k, qs1[k]));
        assert(forall|j: int| 0 <= j < qs0.len() && j != k ==> qs1[j] == qs0[j]);
        assert(forall|j: int| 0 <= j < qs0.len() ==> (#[trigger] qs1[j]).0 == qs0[j].0);
        assert(self.wf());
        assert forall|x: Seq<char>| #[trigger] self.has_queue(x) == pre.has_queue(x) by {
            if pre.has_queue(x) {
                let w = choose|w: int| 0 <= w < qs0.len() && qs0[w].0@ == x;
                assert(qs1[w].0@ == x);
            }
            if self.has_queue(x) {
                let w = choose|w: int| 0 <= w < qs1.len() && qs1[w].0@ == x;
                assert(qs0[w].0@ == x);
            }
        }
        let c1 = choose|j: int| 0 <= j < qs1.len() && qs1[j].0@ == id;
        assert(qs1[k].0@ == id);
        assert(c1 == k);
        let c0 = choose|j: int| 0 <= j < qs0.len() && qs0[j].0@ == id;
        assert(c0 == k);
        assert forall|x: Seq<char>|
            x != id && pre.has_queue(x) implies #[trigger] self.queue_at(x) == pre.queue_at(
            x,
        ) by {
            let w0 = choose|j: int| 0 <= j < qs0.len() && qs0[j].0@ == x;
            let w1 = choose|j: int| 0 <= j < qs1.len() && qs1[j].0@ == x;
            assert(qs1[w0].0@ == x);
            assert(w1 == w0);
            assert(w0 != k);
        }
    }
}

/// Creating a queue under a fresh id and later retiring it restores the
/// id set: afterwards exactly the other ids remain.
pub proof fn lemma_create_remove_roundtrip(
    qs0: Seq<QueueEntry>,
    qs1: Seq<QueueEntry>,
    qs_mid: Seq<QueueEntry>,
    qs2: Seq<QueueEntry>,
    rid: Seq<char>,
)
    requires
        qs1 == remove_entries(qs0, rid).push(qs1.last()),
        qs1.len() == remove_entries(qs0, rid).len() + 1,
        qs1.last().0@ == rid,
        forall|x: Seq<char>| #[trigger] contains_id(qs_mid, x) == contains_id(qs1, x),
        qs2 == remove_entries(qs_mid, rid),
    ensures
        forall|x: Seq<char>| #[trigger] contains_id(qs2, x) == (x != rid && contains_id(qs0, x)),
{
    lemma_remove_entries(qs0, rid);
    lemma_remove_entries(qs_mid, rid);
    let rm0 = remove_entries(qs0, rid);
    assert forall|x: Seq<char>| #[trigger] contains_id(qs1, x) == (x == rid || (x != rid
        && contains_id(qs0, x))) by {
        if contains_id(qs1, x) {
            let k = choose|k: int| 0 <= k < qs1.len() && qs1[k].0@ == x;
            if k == qs1.len() - 1 {
                assert(x == rid);
            } else {
                assert(qs1[k] == rm0[k]);
                assert(contains_id(rm0, x));
            }
        }
        if x == rid {
            assert(qs1[qs1.len() - 1].0@ == x);
            assert(contains_id(qs1, x));
        }
        if x != rid && contains_id(qs0, x) {
            assert(contains_id(rm0, x));
            let k = choose|k: int| 0 <= k < rm0.len() && rm0[k].0@ == x;
            assert(qs1[k] == rm0[k]);
            assert(contains_id(qs1, x));
        }
    }
}
} // verus!
