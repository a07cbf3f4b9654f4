use vstd::prelude::*;

verus! {

/// One HTTP request, serialized and sent into the tunnel. Built once per
/// request by the request handler; immutable after creation.
///
/// The header and query-parameter mappings are kept as association lists
/// with unique keys (see [`pairs_wf`]); a duplicate name at build time is
/// resolved last-write-wins.
#[derive(Debug, Clone, PartialEq, Eq)]
pub struct ProxyRequest {
    pub path: String,
    pub method: String,
    pub headers: Vec<(String, String)>,
    pub query_params: Vec<(String, String)>,
    pub body: String,
    pub request_id: String,
}

/// One inbound tunnel frame, discriminated on the wire by its event-type tag.
/// Every variant carries the correlation id (`request_id`) it belongs to.
#[derive(Debug, Clone, PartialEq, Eq)]
pub enum ClientMessage {
    /// Exactly one expected per request; must be the first frame consumed.
    ResponseHeaders { request_id: String, status: u16, headers: Vec<(String, String)> },
    /// Zero or more body fragments, in tunnel arrival order.
    Chunk { request_id: String, data: String },
    /// Terminal; may arrive instead of headers or mid-stream.
    Error { request_id: String, status: Option<u16>, message: String },
    /// Terminal; the response body is complete.
    StreamClose { request_id: String },
}

/// The mathematical content of a [`ProxyRequest`].
pub ghost struct RequestView {
    pub path: Seq<char>,
    pub method: Seq<char>,
    pub headers: Seq<(Seq<char>, Seq<char>)>,
    pub query_params: Seq<(Seq<char>, Seq<char>)>,
    pub body: Seq<char>,
    pub request_id: Seq<char>,
}

/// The mathematical content of a [`ClientMessage`].
pub ghost enum MessageView {
    ResponseHeaders { request_id: Seq<char>, status: u16, headers: Seq<(Seq<char>, Seq<char>)> },
    Chunk { request_id: Seq<char>, data: Seq<char> },
    Error { request_id: Seq<char>, status: Option<u16>, message: Seq<char> },
    StreamClose { request_id: Seq<char> },
}

impl View for ProxyRequest {
    type V = RequestView;

    open spec fn view(&self) -> RequestView {
        RequestView {
            path: self.path@,
            method: self.method@,
            headers: pairs_view(self.headers@),
            query_params: pairs_view(self.query_params@),
            body: self.body@,
            request_id: self.request_id@,
        }
    }
}

impl View for ClientMessage {
    type V = MessageView;

    open spec fn view(&self) -> MessageView {
        match *self {
            ClientMessage::ResponseHeaders { request_id, status, headers } => (
            MessageView::ResponseHeaders {
                request_id: request_id@,
                status,
                headers: pairs_view(headers@),
            }),
            ClientMessage::Chunk { request_id, data } => (MessageView::Chunk {
                request_id: request_id@,
                data: data@,
            }),
            ClientMessage::Error { request_id, status, message } => (MessageView::Error {
                request_id: request_id@,
                status,
                message: message@,
            }),
            ClientMessage::StreamClose { request_id } => (MessageView::StreamClose {
                request_id: request_id@,
            }),
        }
    }
}

/// The mathematical content of a key-value pair list.
pub open spec fn pairs_view(ps: Seq<(String, String)>) -> Seq<(Seq<char>, Seq<char>)> {
    ps.map_values(|p: (String, String)| (p.0@, p.1@))
}

/// The keys of a pair list are pairwise distinct.
pub open spec fn pairs_wf(ps: Seq<(Seq<char>, Seq<char>)>) -> bool {
    forall|i: int, j: int| 0 <= i < j < ps.len() ==> ps[i].0 != ps[j].0
}

impl ClientMessage {
    /// The correlation id this frame carries.
    pub open spec fn spec_request_id(self) -> Seq<char> {
        match self {
            ClientMessage::ResponseHeaders { request_id, .. } => request_id@,
            ClientMessage::Chunk { request_id, .. } => request_id@,
            ClientMessage::Error { request_id, .. } => request_id@,
            ClientMessage::StreamClose { request_id } => request_id@,
        }
    }

    /// Extracts the correlation id used to route this frame.
    pub fn get_request_id(&self) -> (r: &String)
        ensures
            r@ == self.spec_request_id(),
    {
        match self {
            ClientMessage::ResponseHeaders { request_id, .. } => request_id,
            ClientMessage::Chunk { request_id, .. } => request_id,
            ClientMessage::Error { request_id, .. } => request_id,
            ClientMessage::StreamClose { request_id } => request_id,
        }
    }
}

/// The sentinel a handler may use to mark the end of a response stream.
#[derive(Debug, Clone)]
pub struct StreamEndMessage {
    pub message_type: String,
}

impl StreamEndMessage {
    /// The fixed end-of-stream marker.
    pub fn new() -> (r: Self)
        ensures
            r.message_type@ == "STREAM_END"@,
    {
        StreamEndMessage { message_type: "STREAM_END".to_owned() }
    }
}

} // verus!
