use vstd::prelude::*;

use crate::protocol::{pairs_view, ClientMessage, MessageView};

verus! {

/// The response handed back to the HTTP caller: status, headers applied
/// verbatim, and the fully assembled body.
#[derive(Debug, Clone, PartialEq, Eq)]
pub struct HttpResponse {
    pub status: u16,
    pub headers: Vec<(String, String)>,
    pub body: String,
}

/// The mathematical content of an [`HttpResponse`].
pub ghost struct ResponseView {
    pub status: u16,
    pub headers: Seq<(Seq<char>, Seq<char>)>,
    pub body: Seq<char>,
}

impl View for HttpResponse {
    type V = ResponseView;

    open spec fn view(&self) -> ResponseView {
        ResponseView { status: self.status, headers: pairs_view(self.headers@), body: self.body@ }
    }
}

/// What one wait on the request's queue ended with.
pub enum WaitOutcome {
    /// A frame was handed over.
    Frame(ClientMessage),
    /// The wait exceeded its timeout.
    TimedOut,
    /// The queue was closed, or is already gone.
    ClosedOut,
}

/// The mathematical content of a [`WaitOutcome`].
pub ghost enum OutcomeView {
    Frame(MessageView),
    TimedOut,
    ClosedOut,
}

impl View for WaitOutcome {
    type V = OutcomeView;

    open spec fn view(&self) -> OutcomeView {
        match *self {
            WaitOutcome::Frame(m) => OutcomeView::Frame(m@),
            WaitOutcome::TimedOut => OutcomeView::TimedOut,
            WaitOutcome::ClosedOut => OutcomeView::ClosedOut,
        }
    }
}

/// Where one in-flight request stands: waiting for its response headers,
/// absorbing body frames, or finished with a response.
pub enum SessionPhase {
    /// Dispatched; the first frame has not been consumed yet.
    AwaitingHeaders,
    /// Headers arrived; body fragments are being accumulated.
    Streaming { status: u16, headers: Vec<(String, String)>, body: String },
    /// The response is complete and is emitted once, in full.
    Done(HttpResponse),
}

/// The mathematical content of a [`SessionPhase`].
pub ghost enum PhaseView {
    AwaitingHeaders,
    Streaming { status: u16, headers: Seq<(Seq<char>, Seq<char>)>, body: Seq<char> },
    Done(ResponseView),
}

impl View for SessionPhase {
    type V = PhaseView;

    open spec fn view(&self) -> PhaseView {
        match *self {
            SessionPhase::AwaitingHeaders => PhaseView::AwaitingHeaders,
            SessionPhase::Streaming { status, headers, body } => (PhaseView::Streaming {
                status,
                headers: pairs_view(headers@),
                body: body@,
            }),
            SessionPhase::Done(r) => PhaseView::Done(r@),
        }
    }
}

/// The body fragment appended in place of upstream data when a chunk wait
/// times out, to keep an idle stream alive.
pub open spec fn keepalive_marker() -> Seq<char> {
    ": keepalive\n\n"@
}

/// One transition of the request state machine, on the outcome of one wait.
///
/// Waiting for headers: a `ResponseHeaders` frame starts streaming with an
/// empty body; an `Error` frame fails the request with the frame's status
/// (500 when absent) and message; any other frame fails it with 500; a
/// timeout fails it with 504; a closed queue fails it with 500. Streaming: a
/// `Chunk` appends its data; `StreamClose` completes the response;
/// an `Error` completes it with the partial body (graceful degradation); a
/// timeout appends the keepalive marker and keeps streaming; a closed queue
/// completes with what was accumulated; an unexpected `ResponseHeaders`
/// frame is discarded. A finished session stays finished.
pub open spec fn spec_session_step(p: PhaseView, o: OutcomeView) -> PhaseView {
    match p {
        PhaseView::AwaitingHeaders => match o {
            OutcomeView::Frame(f) => match f {
                MessageView::ResponseHeaders { status, headers, .. } => (PhaseView::Streaming {
                    status,
                    headers,
                    body: Seq::empty(),
                }),
                MessageView::Error { status, message, .. } => PhaseView::Done(
                    ResponseView {
                        status: match status {
                            Some(n) => n,
                            None => 500,
                        },
                        headers: Seq::empty(),
                        body: message,
                    },
                ),
                _ => PhaseView::Done(
                    ResponseView {
                        status: 500,
                        headers: Seq::empty(),
                        body: "Invalid response format"@,
                    },
                ),
            },
            OutcomeView::TimedOut => PhaseView::Done(
                ResponseView { status: 504, headers: Seq::empty(), body: "\u{8bf7}\u{6c42}\u{8d85}\u{65f6}"@ },
            ),
            OutcomeView::ClosedOut => PhaseView::Done(
                ResponseView {
                    status: 500,
                    headers: Seq::empty(),
                    body: "\u{4ee3}\u{7406}\u{9519}\u{8bef}: Queue is closed"@,
                },
            ),
        },
        PhaseView::Streaming { status, headers, body } => match o {
            OutcomeView::Frame(f) => match f {
                MessageView::Chunk { data, .. } => (PhaseView::Streaming {
                    status,
                    headers,
                    body: body + data,
                }),
                MessageView::StreamClose { .. } => PhaseView::Done(
                    ResponseView { status, headers, body },
                ),
                MessageView::Error { .. } => PhaseView::Done(
                    ResponseView { status, headers, body },
                ),
                MessageView::ResponseHeaders { .. } => (PhaseView::Streaming {
                    status,
                    headers,
                    body,
                }),
            },
            OutcomeView::TimedOut => (PhaseView::Streaming {
                status,
                headers,
                body: body + keepalive_marker(),
            }),
            OutcomeView::ClosedOut => PhaseView::Done(ResponseView { status, headers, body }),
        },
        PhaseView::Done(r) => PhaseView::Done(r),
    }
}

/// A fresh, empty header list.
fn empty_headers() -> (r: Vec<(String, String)>)
    ensures
        r@ == Seq::<(String, String)>::empty(),
        pairs_view(r@) == Seq::<(Seq<char>, Seq<char>)>::empty(),
{
    let r: Vec<(String, String)> = Vec::new();
    proof {
        assert(pairs_view(r@) =~= Seq::<(Seq<char>, Seq<char>)>::empty());
    }
    r
}

/// Performs one transition of the request state machine.
pub fn session_step(phase: SessionPhase, outcome: WaitOutcome) -> (r: SessionPhase)
    ensures
        r@ == spec_session_step(phase@, outcome@),
{
    match phase {
        SessionPhase::AwaitingHeaders => match outcome {
            WaitOutcome::Frame(f) => match f {
                ClientMessage::ResponseHeaders { status, headers, .. } => (
                SessionPhase::Streaming { status, headers, body: String::new() }),
                ClientMessage::Error { status, message, .. } => SessionPhase::Done(
                    HttpResponse {
                        status: match status {
                            Some(n) => n,
                            None => 500,
                        },
                        headers: empty_headers(),
                        body: message,
                    },
                ),
                _ => SessionPhase::Done(
                    HttpResponse {
                        status: 500,
                        headers: empty_headers(),
                        body: "Invalid response format".to_owned(),
                    },
                ),
            },
            WaitOutcome::TimedOut => SessionPhase::Done(
                HttpResponse {
                    status: 504,
                    headers: empty_headers(),
                    body: "\u{8bf7}\u{6c42}\u{8d85}\u{65f6}".to_owned(),
                },
            ),
            WaitOutcome::ClosedOut => SessionPhase::Done(
                HttpResponse {
                    status: 500,
                    headers: empty_headers(),
                    body: "\u{4ee3}\u{7406}\u{9519}\u{8bef}: Queue is closed".to_owned(),
                },
            ),
        },
        SessionPhase::Streaming { status, headers, mut body } => match outcome {
            WaitOutcome::Frame(f) => match f {
                ClientMessage::Chunk { data, .. } => {
                    body.append(data.as_str());
                    SessionPhase::Streaming { status, headers, body }
                },
                ClientMessage::StreamClose { .. } => SessionPhase::Done(
                    HttpResponse { status, headers, body },
                ),
                ClientMessage::Error { .. } => SessionPhase::Done(
                    HttpResponse { status, headers, body },
                ),
                ClientMessage::ResponseHeaders { .. } => (SessionPhase::Streaming {
                    status,
                    headers,
                    body,
                }),
            },
            WaitOutcome::TimedOut => {
                body.append(": keepalive\n\n");
                SessionPhase::Streaming { status, headers, body }
            },
            WaitOutcome::ClosedOut => SessionPhase::Done(HttpResponse { status, headers, body }),
        },
        SessionPhase::Done(r) => SessionPhase::Done(r),
    }
}

/// A chunk-wait timeout during streaming appends exactly the keepalive
/// marker to the accumulated body and the stream continues.
pub proof fn lemma_keepalive_on_timeout(
    status: u16,
    headers: Seq<(Seq<char>, Seq<char>)>,
    body: Seq<char>,
)
    ensures
        spec_session_step(
            PhaseView::Streaming { status, headers, body },
            OutcomeView::TimedOut,
        ) == (PhaseView::Streaming { status, headers, body: body + keepalive_marker() }),
{
}

/// A header-wait timeout is fatal: the request fails, surfaced as HTTP 504.
pub proof fn lemma_header_timeout_fails(p: PhaseView)
    requires
        p is AwaitingHeaders,
    ensures
        spec_session_step(p, OutcomeView::TimedOut) matches PhaseView::Done(r) && r.status == 504,
{
}

} // verus!
