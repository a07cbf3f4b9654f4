use vstd::prelude::*;

use crate::codec::{enc_request, encode_proxy_request};
use crate::ids::{generate_request_id, req_id_of};
use crate::logging::LoggingService;
use crate::protocol::{pairs_view, ClientMessage, ProxyRequest, RequestView};
use crate::queue::{DequeueStart, EnqueueEffect, QueueModel};
use crate::registry::ConnectionRegistry;
use crate::request::{body_from_bytes, build_pairs, collect_headers, parse_query, query_params_from};
use crate::session::{session_step, spec_session_step, HttpResponse, OutcomeView, PhaseView, ResponseView, SessionPhase, WaitOutcome};

verus! {

/// Why a request could not be served normally.
pub enum ProxyError {
    /// No tunnel connection is attached: surfaced as HTTP 503.
    NoActiveConnections,
    /// The chosen connection would not accept the send: surfaced as 500.
    DispatchFailed,
    /// The header wait timed out: surfaced as HTTP 504.
    QueueTimeout,
    /// The request's queue was closed underneath it: surfaced as 500.
    QueueClosed,
}

impl ProxyError {
    /// The HTTP status each failure is surfaced as.
    pub open spec fn spec_status(self) -> u16 {
        match self {
            ProxyError::NoActiveConnections => 503,
            ProxyError::DispatchFailed => 500,
            ProxyError::QueueTimeout => 504,
            ProxyError::QueueClosed => 500,
        }
    }

    /// The response body each failure carries.
    pub open spec fn spec_body(self) -> Seq<char> {
        match self {
            ProxyError::NoActiveConnections => "\u{6ca1}\u{6709}\u{53ef}\u{7528}\u{7684}\u{6d4f}\u{89c8}\u{5668}\u{8fde}\u{63a5}"@,
            ProxyError::DispatchFailed => "\u{4ee3}\u{7406}\u{9519}\u{8bef}: Failed to send message"@,
            ProxyError::QueueTimeout => "\u{8bf7}\u{6c42}\u{8d85}\u{65f6}"@,
            ProxyError::QueueClosed => "\u{4ee3}\u{7406}\u{9519}\u{8bef}: Queue is closed"@,
        }
    }
}

/// A serialized request, ready to go out on a connection's send handle.
pub struct OutboundDispatch {
    pub connection: u64,
    pub wire: String,
}

/// One thing the tunnel side does while a request is in flight: a raw frame
/// text arrives, or the current wait's timer fires.
pub enum TunnelEvent {
    Frame(String),
    WaitTimeout,
}

/// What processing one request produced: the response for the HTTP caller
/// (`None` only when the supplied event script ran out mid-request), and
/// the dispatched wire text, if the request was sent into the tunnel.
pub struct RequestResult {
    pub response: Option<HttpResponse>,
    pub dispatch: Option<OutboundDispatch>,
}

/// The chunk-wait bound while streaming: ten seconds.
pub const STREAM_TIMEOUT_MS: u64 = 10000;

/// The outbound request a set of plain HTTP inputs and a correlation id
/// denote.
pub open spec fn spec_build_request(
    method: Seq<char>,
    path: Seq<char>,
    raw_headers: Seq<(Seq<char>, Seq<char>)>,
    query: Option<Seq<char>>,
    body: Seq<u8>,
    request_id: Seq<char>,
) -> RequestView {
    RequestView {
        path,
        method,
        headers: build_pairs(raw_headers),
        query_params: parse_query(
            match query {
                Some(q) => q,
                None => Seq::empty(),
            },
        ),
        body: if vstd::utf8::valid_utf8(body) {
            vstd::utf8::decode_utf8(body)
        } else {
            Seq::empty()
        },
        request_id,
    }
}

/// What one scripted event does to a wait of the request under `id`: the
/// outcome it resolves that wait with, if any. A timer firing always
/// resolves it; a frame resolves it exactly when it is canonical and
/// carries this request's (non-empty) correlation id; every other event is
/// routed elsewhere or dropped.
pub open spec fn resolves(id: Seq<char>, ev: TunnelEvent) -> Option<OutcomeView> {
    match ev {
        TunnelEvent::WaitTimeout => Some(OutcomeView::TimedOut),
        TunnelEvent::Frame(raw) => match crate::codec::sp_client_message(raw@) {
            Some(mv) => if id.len() > 0 && crate::registry::view_request_id(mv) == id {
                Some(OutcomeView::Frame(mv))
            } else {
                None
            },
            None => None,
        },
    }
}

/// The deterministic replay of one request's response assembly: starting in
/// `phase` with the wait pending, the events from `e` on are consumed in
/// order; each one that resolves the current wait steps the session
/// machine, the others leave it waiting. `None` when the script ends before
/// the session does.
pub open spec fn spec_replay(
    id: Seq<char>,
    events: Seq<TunnelEvent>,
    e: int,
    phase: PhaseView,
) -> Option<ResponseView>
    decreases events.len() - e,
{
    match phase {
        PhaseView::Done(r) => Some(r),
        _ => {
            if e < 0 || e >= events.len() {
                None
            } else {
                match resolves(id, events[e]) {
                    Some(o) => spec_replay(id, events, e + 1, spec_session_step(phase, o)),
                    None => spec_replay(id, events, e + 1, phase),
                }
            }
        },
    }
}

/// Events that resolve nothing leave the replay where it was.
proof fn lemma_replay_skip(
    id: Seq<char>,
    events: Seq<TunnelEvent>,
    a: int,
    b: int,
    phase: PhaseView,
)
    requires
        0 <= a <= b <= events.len(),
        forall|k: int| a <= k < b ==> resolves(id, #[trigger] events[k]) is None,
    ensures
        spec_replay(id, events, a, phase) == spec_replay(id, events, b, phase),
    decreases b - a,
{
    if a < b {
        lemma_replay_skip(id, events, a + 1, b, phase);
    }
}

/// One plain HTTP request, as the listener hands it over: method, path, raw
/// header pairs in arrival order, the raw query text, and the body bytes.
pub struct RequestInput {
    pub method: String,
    pub path: String,
    pub headers: Vec<(String, String)>,
    pub query: Option<String>,
    pub body: Vec<u8>,
}

impl RequestInput {
    /// The mathematical content of the raw query text.
    pub open spec fn query_view(self) -> Option<Seq<char>> {
        match self.query {
            Some(q) => Some(q@),
            None => None,
        }
    }
}

/// Drives one HTTP request through its lifecycle: dispatches it over the
/// first tunnel connection and assembles the response from the frames routed
/// to its queue.
pub struct RequestHandler {
    pub connection_registry: ConnectionRegistry,
    pub logger: LoggingService,
}

impl RequestHandler {
    /// A handler over the given registry.
    pub fn new(connection_registry: ConnectionRegistry, logger: LoggingService) -> (r: Self)
        ensures
            r.connection_registry == connection_registry,
            r.logger == logger,
    {
        RequestHandler { connection_registry, logger }
    }

    /// A bare error response: the given status, no headers, the message as
    /// the body.
    pub fn send_error_response(&self, status: u16, message: &str) -> (r: HttpResponse)
        ensures
            r@.status == status,
            r@.headers == Seq::<(Seq<char>, Seq<char>)>::empty(),
            r@.body == message@,
    {
        let r = HttpResponse { status, headers: Vec::new(), body: message.to_owned() };
        proof {
            assert(pairs_view(r.headers@) =~= Seq::<(Seq<char>, Seq<char>)>::empty());
        }
        r
    }

    /// The response for a failure, per the error taxonomy.
    pub fn handle_request_error(&self, error: ProxyError) -> (r: HttpResponse)
        ensures
            r@.status == error.spec_status(),
            r@.body == error.spec_body(),
            r@.headers == Seq::<(Seq<char>, Seq<char>)>::empty(),
    {
        match error {
            ProxyError::NoActiveConnections => self.send_error_response(
                503,
                "\u{6ca1}\u{6709}\u{53ef}\u{7528}\u{7684}\u{6d4f}\u{89c8}\u{5668}\u{8fde}\u{63a5}",
            ),
            ProxyError::QueueTimeout => self.send_error_response(
                504,
                "\u{8bf7}\u{6c42}\u{8d85}\u{65f6}",
            ),
            ProxyError::DispatchFailed => self.send_error_response(
                500,
                "\u{4ee3}\u{7406}\u{9519}\u{8bef}: Failed to send message",
            ),
            ProxyError::QueueClosed => self.send_error_response(
                500,
                "\u{4ee3}\u{7406}\u{9519}\u{8bef}: Queue is closed",
            ),
        }
    }

    /// A fresh correlation id from the clock and the random generator.
    pub fn generate_request_id(&self) -> (r: String)
        ensures
            exists|ts: i64, bs: Seq<u8>| bs.len() == 9 && r@ == req_id_of(ts, bs),
    {
        generate_request_id()
    }

    /// Builds the outbound request from the plain HTTP inputs: headers
    /// collapsed last-write-wins, query pairs split on `&` and `=` with
    /// malformed pairs dropped, and a body that degrades to empty text when
    /// its bytes are not valid UTF-8.
    pub fn build_proxy_request(
        &self,
        method: String,
        path: String,
        raw_headers: &Vec<(String, String)>,
        query: Option<&str>,
        body: Vec<u8>,
        request_id: &str,
    ) -> (r: ProxyRequest)
        ensures
            r@ == spec_build_request(
                method@,
                path@,
                pairs_view(raw_headers@),
                match query {
                    Some(q) => Some(q@),
                    None => None,
                },
                body@,
                request_id@,
            ),
    {
        let headers = collect_headers(raw_headers);
        let query_params = match query {
            Some(q) => query_params_from(q),
            None => {
                let r = query_params_from("");
                proof {
                    reveal_strlit("");
                    assert(""@ =~= Seq::<char>::empty());
                }
                r
            },
        };
        let body_text = body_from_bytes(body);
        proof {
            if vstd::utf8::valid_utf8(body@) {
                vstd::utf8::encode_utf8_decode_utf8(body_text@);
            }
        }
        ProxyRequest {
            path,
            method,
            headers,
            query_params,
            body: body_text,
            request_id: request_id.to_owned(),
        }
    }

    /// Serializes the request and pairs it with the outbound handle every
    /// request uses: the first connection ever added. Fails exactly when no
    /// connection is attached.
    pub fn forward_request(&self, proxy_request: &ProxyRequest) -> (r: Result<
        OutboundDispatch,
        ProxyError,
    >)
        ensures
            self.connection_registry.connections@.len() == 0 <==> r is Err,
            r matches Err(e) ==> e is NoActiveConnections,
            r matches Ok(d) ==> d.connection == self.connection_registry.connections@[0]
                && d.wire@ == enc_request(proxy_request@),
    {
        match self.connection_registry.get_first_connection() {
            Some(connection) => {
                let wire = encode_proxy_request(proxy_request);
                Ok(OutboundDispatch { connection, wire })
            },
            None => Err(ProxyError::NoActiveConnections),
        }
    }
}

/// The request's queue exists, idle and open: no buffered frame, no
/// pending waiter. The state a freshly created queue is in.
pub open spec fn idle_queue(reg: ConnectionRegistry, id: Seq<char>) -> bool {
    &&& reg.has_queue(id)
    &&& reg.queue_at(id).buffer.len() == 0
    &&& reg.queue_at(id).waiters.len() == 0
    &&& !reg.queue_at(id).closed
}

/// The wait being resolved is the only pending one, on an otherwise idle,
/// open queue: the state `handle_response` is in whenever it waits.
pub open spec fn clean_wait(reg: ConnectionRegistry, id: Seq<char>, waiter: u64) -> bool {
    &&& reg.has_queue(id)
    &&& reg.queue_at(id).waiters == seq![waiter]
    &&& reg.queue_at(id).buffer.len() == 0
    &&& !reg.queue_at(id).closed
}

/// Consumes events until one resolves the wait of `waiter` on the queue
/// under `request_id`: a frame delivered to that waiter, or its timer
/// firing. Frames for other requests are routed on the way; malformed or
/// unroutable texts are dropped. `None` means the script ran out first.
///
/// Under a clean wait, the resolution is exactly what [`resolves`] says of
/// the script: the skipped events resolve nothing, the last consumed one
/// resolves to the returned outcome, and the waiter is withdrawn.
fn await_outcome(
    registry: &mut ConnectionRegistry,
    request_id: &str,
    waiter: u64,
    events: &Vec<TunnelEvent>,
    e: &mut usize,
) -> (r: Option<WaitOutcome>)
    requires
        old(registry).wf(),
        *old(e) <= events@.len(),
    ensures
        final(registry).wf(),
        final(registry).connections == old(registry).connections,
        final(registry).logger == old(registry).logger,
        final(registry).message_queues@.len() == old(registry).message_queues@.len(),
        forall|x: Seq<char>| #[trigger]
            final(registry).has_queue(x) == old(registry).has_queue(x),
        *old(e) <= *final(e) <= events@.len(),
        r is None ==> *final(e) == events@.len(),
        r is Some ==> *old(e) < *final(e),
        clean_wait(*old(registry), request_id@, waiter) ==> ({
            &&& (r matches Some(outcome) ==> {
                &&& (forall|k: int|
                    *old(e) <= k < *final(e) - 1 ==> resolves(
                        request_id@,
                        #[trigger] events@[k],
                    ) is None)
                &&& resolves(request_id@, events@[*final(e) - 1]) == Some(outcome@)
                &&& final(registry).queue_at(request_id@) == (QueueModel {
                    waiters: Seq::empty(),
                    ..old(registry).queue_at(request_id@)
                })
            })
            &&& (r is None ==> forall|k: int|
                *old(e) <= k < events@.len() ==> resolves(
                    request_id@,
                    #[trigger] events@[k],
                ) is None)
        }),
{
    let ghost cw = clean_wait(*old(registry), request_id@, waiter);
    while *e < events.len()
        invariant
            registry.wf(),
            registry.connections == old(registry).connections,
            registry.logger == old(registry).logger,
            registry.message_queues@.len() == old(registry).message_queues@.len(),
            forall|x: Seq<char>| #[trigger]
                registry.has_queue(x) == old(registry).has_queue(x),
            *old(e) <= *e <= events@.len(),
            cw == clean_wait(*old(registry), request_id@, waiter),
            cw ==> registry.queue_at(request_id@) == old(registry).queue_at(request_id@),
            cw ==> forall|k: int|
                *old(e) <= k < *e ==> resolves(request_id@, #[trigger] events@[k]) is None,
        decreases events@.len() - *e,
    {
        match &events[*e] {
            TunnelEvent::Frame(raw) => {
                let ghost k0 = *e as int;
                *e += 1;
                let ghost pre = *registry;
                let outcome = registry.handle_incoming_message(raw.as_str());
                proof {
                    assert(registry.message_queues@.len() == pre.message_queues@.len());
                    assert(forall|j: int|
                        0 <= j < pre.message_queues@.len() ==> (
                        #[trigger] registry.message_queues@[j]).0 == pre.message_queues@[j].0);
                    assert forall|x: Seq<char>| #[trigger]
                        registry.has_queue(x) == pre.has_queue(x) by {
                        if pre.has_queue(x) {
                            let w = choose|w: int|
                                0 <= w < pre.message_queues@.len() && pre.message_queues@[w].0@
                                    == x;
                            assert(registry.message_queues@[w].0@ == x);
                        }
                        if registry.has_queue(x) {
                            let w = choose|w: int|
                                0 <= w < registry.message_queues@.len()
                                    && registry.message_queues@[w].0@ == x;
                            assert(pre.message_queues@[w].0@ == x);
                        }
                    }
                }
                match outcome {
                    crate::registry::RouteOutcome::Routed(
                        EnqueueEffect::Delivered { waiter: w, item },
                    ) => {
                        if w == waiter && crate::codec::str_eq(
                            item.get_request_id().as_str(),
                            request_id,
                        ) {
                            proof {
                                if cw {
                                    let ours = request_id@;
                                    let sp = crate::codec::sp_client_message(raw@);
                                    assert(sp is Some);
                                    let mv = sp->0;
                                    let fid = crate::registry::view_request_id(mv);
                                    assert(fid.len() > 0);
                                    assert(pre.has_queue(fid));
                                    let m = choose|m: ClientMessage|
                                        m@ == mv && (registry.queue_at(fid), outcome) == (
                                        crate::queue::spec_enqueue(pre.queue_at(fid), m).0,
                                        crate::registry::RouteOutcome::Routed(
                                            crate::queue::spec_enqueue(pre.queue_at(fid), m).1,
                                        ));
                                    assert(item == m);
                                    assert(item.spec_request_id() == ours);
                                    assert(m.spec_request_id() == crate::registry::view_request_id(
                                        m@,
                                    ));
                                    assert(fid == ours);
                                    let q_pre = pre.queue_at(ours);
                                    assert(q_pre == old(registry).queue_at(ours));
                                    assert(q_pre.waiters.drop_last() =~= Seq::<u64>::empty());
                                    assert(registry.queue_at(ours) == (QueueModel {
                                        waiters: Seq::empty(),
                                        ..old(registry).queue_at(ours)
                                    }));
                                    assert(resolves(ours, events@[k0]) == Some(
                                        OutcomeView::Frame(mv),
                                    ));
                                }
                            }
                            return Some(WaitOutcome::Frame(item));
                        }
                        proof {
                            if cw {
                                let ours = request_id@;
                                let sp = crate::codec::sp_client_message(raw@);
                                assert(sp is Some);
                                let mv = sp->0;
                                let fid = crate::registry::view_request_id(mv);
                                assert(fid.len() > 0);
                                assert(pre.has_queue(fid));
                                let m = choose|m: ClientMessage|
                                    m@ == mv && (registry.queue_at(fid), outcome) == (
                                    crate::queue::spec_enqueue(pre.queue_at(fid), m).0,
                                    crate::registry::RouteOutcome::Routed(
                                        crate::queue::spec_enqueue(pre.queue_at(fid), m).1,
                                    ));
                                assert(item == m);
                                if fid == ours {
                                    assert(pre.queue_at(ours).waiters.last() == waiter);
                                    assert(w == waiter);
                                    assert(item.spec_request_id()
                                        == crate::registry::view_request_id(m@));
                                    assert(item.spec_request_id() == ours);
                                    assert(false);
                                }
                                assert(registry.queue_at(ours) == pre.queue_at(ours));
                                assert(resolves(ours, events@[k0]) is None);
                            }
                        }
                    },
                    _ => {
                        proof {
                            if cw {
                                let ours = request_id@;
                                match crate::codec::sp_client_message(raw@) {
                                    None => {
                                        assert(resolves(ours, events@[k0]) is None);
                                    },
                                    Some(mv) => {
                                        let fid = crate::registry::view_request_id(mv);
                                        if fid.len() == 0 {
                                            assert(resolves(ours, events@[k0]) is None);
                                        } else if !pre.has_queue(fid) {
                                            assert(pre.has_queue(ours));
                                            assert(fid != ours);
                                            assert(resolves(ours, events@[k0]) is None);
                                        } else {
                                            let m = choose|m: ClientMessage|
                                                m@ == mv && (registry.queue_at(fid), outcome) == (
                                                crate::queue::spec_enqueue(pre.queue_at(fid), m).0,
                                                crate::registry::RouteOutcome::Routed(
                                                    crate::queue::spec_enqueue(
                                                        pre.queue_at(fid),
                                                        m,
                                                    ).1,
                                                ));
                                            if fid == ours {
                                                assert(outcome
                                                    == crate::registry::RouteOutcome::Routed(
                                                    EnqueueEffect::Delivered {
                                                        waiter: waiter,
                                                        item: m,
                                                    },
                                                ));
                                                assert(false);
                                            }
                                            assert(registry.queue_at(ours) == pre.queue_at(ours));
                                            assert(resolves(ours, events@[k0]) is None);
                                        }
                                    },
                                }
                            }
                        }
                    },
                }
            },
            TunnelEvent::WaitTimeout => {
                let ghost k0 = *e as int;
                *e += 1;
                let ghost pre = *registry;
                registry.queue_expire(request_id, waiter);
                proof {
                    if cw {
                        let ours = request_id@;
                        assert(pre.has_queue(ours));
                        assert(seq![waiter].drop_last() =~= Seq::<u64>::empty());
                        assert(crate::queue::remove_waiter(Seq::<u64>::empty(), waiter)
                            == Seq::<u64>::empty());
                        assert(crate::queue::remove_waiter(seq![waiter], waiter)
                            == Seq::<u64>::empty());
                        assert(registry.queue_at(ours) == (QueueModel {
                            waiters: Seq::empty(),
                            ..old(registry).queue_at(ours)
                        }));
                        assert(resolves(ours, events@[k0]) == Some(OutcomeView::TimedOut));
                    }
                }
                return Some(WaitOutcome::TimedOut);
            },
        }
    }
    None
}

impl RequestHandler {
    /// Assembles the response for one dispatched request: waits for the
    /// header frame under the queue's ten-minute bound, then absorbs body
    /// frames under the ten-second chunk bound, stepping the session state
    /// machine on every outcome. Timer firings and frame arrivals are taken
    /// from the event script in order; `None` means it ran out mid-request.
    ///
    /// Starting from an idle open queue, the result is exactly the replay
    /// of the session machine over the script (see [`spec_replay`]); a
    /// request whose queue is already gone fails at once with 500.
    pub fn handle_response(&mut self, request_id: &str, events: &Vec<TunnelEvent>) -> (r: Option<
        HttpResponse,
    >)
        requires
            old(self).connection_registry.wf(),
        ensures
            final(self).connection_registry.wf(),
            final(self).connection_registry.connections == old(self).connection_registry.connections,
            final(self).connection_registry.logger == old(self).connection_registry.logger,
            final(self).logger == old(self).logger,
            final(self).connection_registry.message_queues@.len() == old(
                self,
            ).connection_registry.message_queues@.len(),
            forall|x: Seq<char>| #[trigger]
                final(self).connection_registry.has_queue(x) == old(
                    self,
                ).connection_registry.has_queue(x),
            !old(self).connection_registry.has_queue(request_id@) ==> (r matches Some(resp)
                && resp@.status == 500 && resp@.body
                == "\u{4ee3}\u{7406}\u{9519}\u{8bef}: Queue is closed"@),
            idle_queue(old(self).connection_registry, request_id@) ==> (match r {
                Some(resp) => spec_replay(request_id@, events@, 0, PhaseView::AwaitingHeaders)
                    == Some(resp@),
                None => spec_replay(request_id@, events@, 0, PhaseView::AwaitingHeaders) is None,
            }),
    {
        let ghost idle = idle_queue(old(self).connection_registry, request_id@);
        let ghost q0 = old(self).connection_registry.queue_at(request_id@);
        let mut phase = SessionPhase::AwaitingHeaders;
        let mut e: usize = 0;
        let mut waiter: u64 = 0;
        let mut header_wait = true;
        loop
            invariant
                self.connection_registry.wf(),
                self.connection_registry.connections == old(self).connection_registry.connections,
                self.connection_registry.logger == old(self).connection_registry.logger,
                self.logger == old(self).logger,
                self.connection_registry.message_queues@.len() == old(
                    self,
                ).connection_registry.message_queues@.len(),
                forall|x: Seq<char>| #[trigger]
                    self.connection_registry.has_queue(x) == old(
                        self,
                    ).connection_registry.has_queue(x),
                e <= events@.len(),
                !(phase is Done),
                !old(self).connection_registry.has_queue(request_id@) ==> phase
                    is AwaitingHeaders,
                idle == idle_queue(old(self).connection_registry, request_id@),
                q0 == old(self).connection_registry.queue_at(request_id@),
                idle ==> self.connection_registry.queue_at(request_id@) == q0,
                idle ==> spec_replay(request_id@, events@, e as int, phase@) == spec_replay(
                    request_id@,
                    events@,
                    0,
                    PhaseView::AwaitingHeaders,
                ),
            decreases
                    events@.len() - e,
                    (if self.connection_registry.has_queue(request_id@) {
                        self.connection_registry.queue_at(request_id@).buffer.len() as int
                    } else {
                        0
                    }),
        {
            let timeout_arg = if header_wait {
                None
            } else {
                Some(STREAM_TIMEOUT_MS)
            };
            let ghost w_used = waiter;
            let ghost ph0 = phase@;
            let ghost e0 = e as int;
            let start = self.connection_registry.queue_dequeue(request_id, waiter, timeout_arg);
            if waiter < u64::MAX {
                waiter += 1;
            }
            proof {
                if idle {
                    assert(q0.waiters =~= Seq::<u64>::empty());
                    assert(q0.waiters.push(w_used) =~= seq![w_used]);
                    assert(start is Waiting);
                    assert(self.connection_registry.queue_at(request_id@) == (QueueModel {
                        waiters: seq![w_used],
                        ..q0
                    }));
                }
            }
            match start {
                DequeueStart::Ready(item) => {
                    phase = session_step(phase, WaitOutcome::Frame(item));
                },
                DequeueStart::Closed => {
                    phase = session_step(phase, WaitOutcome::ClosedOut);
                },
                DequeueStart::Waiting { waiter: w, .. } => {
                    match await_outcome(
                        &mut self.connection_registry,
                        request_id,
                        w,
                        events,
                        &mut e,
                    ) {
                        Some(outcome) => {
                            proof {
                                if idle {
                                    let rid = request_id@;
                                    assert(w == w_used);
                                    lemma_replay_skip(rid, events@, e0, e as int - 1, ph0);
                                    assert(spec_replay(rid, events@, e as int - 1, ph0)
                                        == spec_replay(
                                        rid,
                                        events@,
                                        e as int,
                                        spec_session_step(ph0, outcome@),
                                    ));
                                    assert(self.connection_registry.queue_at(rid) == (QueueModel {
                                        waiters: Seq::empty(),
                                        ..QueueModel { waiters: seq![w_used], ..q0 }
                                    }));
                                    assert(self.connection_registry.queue_at(rid) == q0);
                                }
                            }
                            phase = session_step(phase, outcome);
                        },
                        None => {
                            proof {
                                if idle {
                                    let rid = request_id@;
                                    lemma_replay_skip(rid, events@, e0, events@.len() as int, ph0);
                                    assert(spec_replay(rid, events@, events@.len() as int, ph0)
                                        is None);
                                }
                            }
                            return None;
                        },
                    }
                },
            }
            phase = match phase {
                SessionPhase::Done(resp) => {
                    proof {
                        if idle {
                            assert(spec_replay(
                                request_id@,
                                events@,
                                e as int,
                                PhaseView::Done(resp@),
                            ) == Some(resp@));
                        }
                    }
                    return Some(resp);
                },
                SessionPhase::Streaming { status, headers, body } => {
                    header_wait = false;
                    SessionPhase::Streaming { status, headers, body }
                },
                SessionPhase::AwaitingHeaders => SessionPhase::AwaitingHeaders,
            };
        }
    }

    /// Serves one HTTP request end to end: rejects it with 503 when no
    /// tunnel is attached (creating no queue); otherwise creates the queue
    /// under a fresh correlation id, dispatches the serialized request on
    /// the first connection, assembles the response from the scripted
    /// events, and retires the queue, whatever the outcome. `send_ok` says
    /// whether the transport accepted the dispatched text. Once dispatched,
    /// the response is the replay of the session machine over the script
    /// (see [`spec_replay`]).
    pub fn process_request(&mut self, req: RequestInput, send_ok: bool, events: &Vec<
        TunnelEvent,
    >) -> (r: RequestResult)
        requires
            old(self).connection_registry.wf(),
        ensures
            final(self).connection_registry.wf(),
            final(self).connection_registry.connections == old(self).connection_registry.connections,
            old(self).connection_registry.connections@.len() == 0 ==> *final(self) == *old(self)
                && r.dispatch is None && (r.response matches Some(resp) && resp@.status == 503
                && resp@.body
                == "\u{6ca1}\u{6709}\u{53ef}\u{7528}\u{7684}\u{6d4f}\u{89c8}\u{5668}\u{8fde}\u{63a5}"@),
            old(self).connection_registry.connections@.len() > 0 ==> (r.dispatch matches Some(d)
                && d.connection == old(self).connection_registry.connections@[0] && exists|
                ts: i64,
                bs: Seq<u8>,
            |
                bs.len() == 9 && d.wire@ == enc_request(
                    spec_build_request(
                        req.method@,
                        req.path@,
                        pairs_view(req.headers@),
                        req.query_view(),
                        req.body@,
                        req_id_of(ts, bs),
                    ),
                ) && (forall|x: Seq<char>| #[trigger]
                    final(self).connection_registry.has_queue(x) == (x != req_id_of(ts, bs)
                        && old(self).connection_registry.has_queue(x))) && (send_ok
                    ==> match r.response {
                    Some(resp) => spec_replay(
                        req_id_of(ts, bs),
                        events@,
                        0,
                        PhaseView::AwaitingHeaders,
                    ) == Some(resp@),
                    None => spec_replay(
                        req_id_of(ts, bs),
                        events@,
                        0,
                        PhaseView::AwaitingHeaders,
                    ) is None,
                })),
            old(self).connection_registry.connections@.len() > 0 && !send_ok ==> (
            r.response matches Some(resp) && resp@.status == 500 && resp@.body
                == ProxyError::DispatchFailed.spec_body()),
    {
        if !self.connection_registry.has_active_connections() {
            let resp = self.handle_request_error(ProxyError::NoActiveConnections);
            return RequestResult { response: Some(resp), dispatch: None };
        }
        let request_id = self.generate_request_id();
        let ghost rid = request_id@;
        let ghost qs0 = self.connection_registry.message_queues@;
        let query_ref = match &req.query {
            Some(q) => Some(q.as_str()),
            None => None,
        };
        let proxy_request = self.build_proxy_request(
            req.method,
            req.path,
            &req.headers,
            query_ref,
            req.body,
            request_id.as_str(),
        );
        self.connection_registry.create_message_queue(request_id.clone());
        proof {
            crate::registry::lemma_remove_entries(
                old(self).connection_registry.message_queues@,
                request_id@,
            );
            let st = self.connection_registry;
            let qs = st.message_queues@;
            assert(st.has_queue(rid));
            assert forall|j: int| 0 <= j < qs.len() && (#[trigger] qs[j]).0@ == rid implies j
                == qs.len() - 1 by {
                if j < qs.len() - 1 {
                    assert(qs.drop_last()[j] == qs[j]);
                }
            }
            assert(st.queue_at(rid) == qs.last().1.model());
            assert(idle_queue(st, rid));
        }
        let dispatch = match self.forward_request(&proxy_request) {
            Ok(d) => d,
            // a connection was seen above and nothing here removes one
            Err(_) => vstd::pervasive::unreached(),
        };
        let ghost qs1 = self.connection_registry.message_queues@;
        if !send_ok {
            let ghost qs_mid = self.connection_registry.message_queues@;
            self.connection_registry.remove_message_queue(request_id.as_str());
            proof {
                crate::registry::lemma_remove_entries(qs_mid, rid);
                crate::registry::lemma_create_remove_roundtrip(
                    qs0,
                    qs1,
                    qs_mid,
                    self.connection_registry.message_queues@,
                    rid,
                );
                let (ts, bs) = choose|ts: i64, bs: Seq<u8>|
                    bs.len() == 9 && rid == req_id_of(ts, bs);
                assert(rid == req_id_of(ts, bs));
                assert(bs.len() == 9 && dispatch.wire@ == enc_request(
                    spec_build_request(
                        req.method@,
                        req.path@,
                        pairs_view(req.headers@),
                        req.query_view(),
                        req.body@,
                        req_id_of(ts, bs),
                    ),
                ) && (forall|x: Seq<char>| #[trigger]
                    self.connection_registry.has_queue(x) == (x != req_id_of(ts, bs) && old(
                        self,
                    ).connection_registry.has_queue(x))));
            }
            let resp = self.handle_request_error(ProxyError::DispatchFailed);
            return RequestResult { response: Some(resp), dispatch: Some(dispatch) };
        }
        let response = self.handle_response(request_id.as_str(), events);
        let ghost qs_mid = self.connection_registry.message_queues@;
        proof {
            assert forall|x: Seq<char>| #[trigger] crate::registry::contains_id(qs_mid, x)
                == crate::registry::contains_id(qs1, x) by {
                assert(self.connection_registry.has_queue(x) == crate::registry::contains_id(
                    qs_mid,
                    x,
                ));
            }
        }
        self.connection_registry.remove_message_queue(request_id.as_str());
        proof {
            crate::registry::lemma_remove_entries(qs_mid, rid);
            crate::registry::lemma_create_remove_roundtrip(
                qs0,
                qs1,
                qs_mid,
                self.connection_registry.message_queues@,
                rid,
            );
            let (ts, bs) = choose|ts: i64, bs: Seq<u8>|
                bs.len() == 9 && rid == req_id_of(ts, bs);
            assert(rid == req_id_of(ts, bs));
            assert(bs.len() == 9 && dispatch.wire@ == enc_request(
                spec_build_request(
                    req.method@,
                    req.path@,
                    pairs_view(req.headers@),
                    req.query_view(),
                    req.body@,
                    req_id_of(ts, bs),
                ),
            ) && (forall|x: Seq<char>| #[trigger]
                self.connection_registry.has_queue(x) == (x != req_id_of(ts, bs) && old(
                    self,
                ).connection_registry.has_queue(x))) && (match response {
                Some(resp) => spec_replay(req_id_of(ts, bs), events@, 0, PhaseView::AwaitingHeaders)
                    == Some(resp@),
                None => spec_replay(req_id_of(ts, bs), events@, 0, PhaseView::AwaitingHeaders)
                    is None,
            }));
        }
        RequestResult { response, dispatch: Some(dispatch) }
    }
}

} // verus!
