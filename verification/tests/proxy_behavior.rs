use tunnel_proxy::codec::encode_client_message;
use tunnel_proxy::handler::{ProxyError, RequestHandler, RequestInput, TunnelEvent};
use tunnel_proxy::logging::LoggingService;
use tunnel_proxy::protocol::ClientMessage;
use tunnel_proxy::queue::{DequeueStart, EnqueueEffect, MessageQueue};
use tunnel_proxy::registry::ConnectionRegistry;

fn fresh_handler() -> RequestHandler {
    let logger = LoggingService::new("test");
    let registry = ConnectionRegistry::new(LoggingService::new("test"));
    RequestHandler::new(registry, logger)
}

fn plain_request() -> RequestInput {
    RequestInput {
        method: "GET".to_string(),
        path: "/api/test".to_string(),
        headers: Vec::new(),
        query: None,
        body: Vec::new(),
    }
}

fn frame(message: &ClientMessage) -> TunnelEvent {
    TunnelEvent::Frame(encode_client_message(message))
}

#[test]
fn no_tunnel_means_503_and_no_queue() {
    let mut handler = fresh_handler();
    let result = handler.process_request(plain_request(), true, &Vec::new());
    let response = result.response.expect("a response is owed");
    assert_eq!(response.status, 503);
    assert_eq!(response.body, "\u{6ca1}\u{6709}\u{53ef}\u{7528}\u{7684}\u{6d4f}\u{89c8}\u{5668}\u{8fde}\u{63a5}");
    assert!(result.dispatch.is_none());
    assert_eq!(handler.connection_registry.message_queues.len(), 0);
}

#[test]
fn enqueue_dequeue_is_stack_ordered() {
    let mut queue: MessageQueue<&'static str> = MessageQueue::new(1000);
    queue.enqueue("A");
    queue.enqueue("B");
    match queue.dequeue(1) {
        DequeueStart::Ready(item) => assert_eq!(item, "B"),
        _ => panic!("expected the most recently buffered item"),
    }
}

#[test]
fn waiting_consumers_are_stack_ordered() {
    let mut queue: MessageQueue<&'static str> = MessageQueue::new(1000);
    match queue.dequeue(1) {
        DequeueStart::Waiting { waiter, .. } => assert_eq!(waiter, 1),
        _ => panic!("consumer one should block"),
    }
    match queue.dequeue(2) {
        DequeueStart::Waiting { waiter, .. } => assert_eq!(waiter, 2),
        _ => panic!("consumer two should block"),
    }
    match queue.enqueue("X") {
        EnqueueEffect::Delivered { waiter, item } => {
            assert_eq!(waiter, 2);
            assert_eq!(item, "X");
        }
        _ => panic!("the item should be handed to a waiter"),
    }
    assert_eq!(queue.waiting_resolvers, vec![1]);
}

#[test]
fn header_wait_timeout_surfaces_504() {
    let mut handler = fresh_handler();
    handler.connection_registry.add_connection(7);
    let events = vec![TunnelEvent::WaitTimeout];
    let result = handler.process_request(plain_request(), true, &events);
    let response = result.response.expect("a response is owed");
    assert_eq!(response.status, 504);
    assert_eq!(response.body, "\u{8bf7}\u{6c42}\u{8d85}\u{65f6}");
    assert_eq!(handler.connection_registry.message_queues.len(), 0);
}

#[test]
fn dispatch_failure_surfaces_500_and_retires_queue() {
    let mut handler = fresh_handler();
    handler.connection_registry.add_connection(7);
    let result = handler.process_request(plain_request(), false, &Vec::new());
    let response = result.response.expect("a response is owed");
    assert_eq!(response.status, 500);
    assert_eq!(response.body, "\u{4ee3}\u{7406}\u{9519}\u{8bef}: Failed to send message");
    assert!(result.dispatch.is_some());
    assert_eq!(handler.connection_registry.message_queues.len(), 0);
}

#[test]
fn streamed_response_is_assembled_in_order() {
    let mut handler = fresh_handler();
    handler.connection_registry.add_connection(7);
    handler.connection_registry.create_message_queue("rid_1".to_string());
    let events = vec![
        frame(&ClientMessage::ResponseHeaders {
            request_id: "rid_1".to_string(),
            status: 200,
            headers: Vec::new(),
        }),
        frame(&ClientMessage::Chunk { request_id: "rid_1".to_string(), data: "hello ".to_string() }),
        frame(&ClientMessage::Chunk { request_id: "rid_1".to_string(), data: "world".to_string() }),
        frame(&ClientMessage::StreamClose { request_id: "rid_1".to_string() }),
    ];
    let response = handler.handle_response("rid_1", &events).expect("script should finish");
    assert_eq!(response.status, 200);
    assert_eq!(response.body, "hello world");
}

#[test]
fn error_frame_first_surfaces_its_status_and_message() {
    let mut handler = fresh_handler();
    handler.connection_registry.add_connection(7);
    handler.connection_registry.create_message_queue("rid_e".to_string());
    let events = vec![frame(&ClientMessage::Error {
        request_id: "rid_e".to_string(),
        status: Some(404),
        message: "not found".to_string(),
    })];
    let response = handler.handle_response("rid_e", &events).expect("script should finish");
    assert_eq!(response.status, 404);
    assert_eq!(response.body, "not found");
}

#[test]
fn chunk_timeout_appends_keepalive_and_streaming_continues() {
    let mut handler = fresh_handler();
    handler.connection_registry.add_connection(7);
    handler.connection_registry.create_message_queue("rid_k".to_string());
    let events = vec![
        frame(&ClientMessage::ResponseHeaders {
            request_id: "rid_k".to_string(),
            status: 200,
            headers: Vec::new(),
        }),
        frame(&ClientMessage::Chunk { request_id: "rid_k".to_string(), data: "data:1\n\n".to_string() }),
        TunnelEvent::WaitTimeout,
        frame(&ClientMessage::Chunk { request_id: "rid_k".to_string(), data: "data:2\n\n".to_string() }),
        frame(&ClientMessage::StreamClose { request_id: "rid_k".to_string() }),
    ];
    let response = handler.handle_response("rid_k", &events).expect("script should finish");
    assert_eq!(response.status, 200);
    assert_eq!(response.body, "data:1\n\n: keepalive\n\ndata:2\n\n");
}

#[test]
fn disconnect_closes_every_queue_under_one_connection() {
    let mut registry = ConnectionRegistry::new(LoggingService::new("test"));
    registry.add_connection(1);
    registry.create_message_queue("req_a".to_string());
    registry.create_message_queue("req_b".to_string());
    assert_eq!(registry.message_queues.len(), 2);

    registry.remove_connection();

    assert_eq!(registry.message_queues.len(), 0);
    assert_eq!(registry.connections, vec![1]);
}

#[test]
fn queue_is_created_and_retired_exactly_once_per_request() {
    let mut registry = ConnectionRegistry::new(LoggingService::new("test"));
    registry.create_message_queue("one".to_string());
    assert_eq!(registry.message_queues.len(), 1);
    registry.remove_message_queue("one");
    assert_eq!(registry.message_queues.len(), 0);
    registry.remove_message_queue("one");
    assert_eq!(registry.message_queues.len(), 0);
}

#[test]
fn frames_with_unknown_or_missing_ids_are_dropped() {
    let mut registry = ConnectionRegistry::new(LoggingService::new("test"));
    registry.create_message_queue("known".to_string());

    let unknown = encode_client_message(&ClientMessage::Chunk {
        request_id: "other".to_string(),
        data: "x".to_string(),
    });
    match registry.handle_incoming_message(&unknown) {
        tunnel_proxy::registry::RouteOutcome::UnknownRequestId => {}
        _ => panic!("a frame with an unknown id must be dropped"),
    }

    let missing = encode_client_message(&ClientMessage::StreamClose { request_id: "".to_string() });
    match registry.handle_incoming_message(&missing) {
        tunnel_proxy::registry::RouteOutcome::MissingRequestId => {}
        _ => panic!("a frame without an id must be dropped"),
    }

    match registry.handle_incoming_message("not a frame at all") {
        tunnel_proxy::registry::RouteOutcome::ParseFailed => {}
        _ => panic!("unparseable text must be dropped"),
    }

    assert_eq!(registry.message_queues.len(), 1);
    assert_eq!(registry.message_queues[0].1.messages.len(), 0);
}

#[test]
fn routed_frame_reaches_its_queue() {
    let mut registry = ConnectionRegistry::new(LoggingService::new("test"));
    registry.create_message_queue("known".to_string());
    let text = encode_client_message(&ClientMessage::Chunk {
        request_id: "known".to_string(),
        data: "payload".to_string(),
    });
    match registry.handle_incoming_message(&text) {
        tunnel_proxy::registry::RouteOutcome::Routed(EnqueueEffect::Buffered) => {}
        _ => panic!("the frame should be buffered on its queue"),
    }
    assert_eq!(registry.message_queues[0].1.messages.len(), 1);
}

#[test]
fn error_taxonomy_maps_to_statuses_and_bodies() {
    let handler = fresh_handler();
    let no_conn = handler.handle_request_error(ProxyError::NoActiveConnections);
    assert_eq!(no_conn.status, 503);
    assert_eq!(no_conn.body, "\u{6ca1}\u{6709}\u{53ef}\u{7528}\u{7684}\u{6d4f}\u{89c8}\u{5668}\u{8fde}\u{63a5}");
    let dispatch = handler.handle_request_error(ProxyError::DispatchFailed);
    assert_eq!(dispatch.status, 500);
    assert_eq!(dispatch.body, "\u{4ee3}\u{7406}\u{9519}\u{8bef}: Failed to send message");
    let timeout = handler.handle_request_error(ProxyError::QueueTimeout);
    assert_eq!(timeout.status, 504);
    assert_eq!(timeout.body, "\u{8bf7}\u{6c42}\u{8d85}\u{65f6}");
    let closed = handler.handle_request_error(ProxyError::QueueClosed);
    assert_eq!(closed.status, 500);
    assert_eq!(closed.body, "\u{4ee3}\u{7406}\u{9519}\u{8bef}: Queue is closed");
}

#[test]
fn closed_queue_fails_header_wait_with_500() {
    let mut handler = fresh_handler();
    handler.connection_registry.add_connection(7);
    let response = handler.handle_response("never_created", &Vec::new()).expect("closed at once");
    assert_eq!(response.status, 500);
    assert_eq!(response.body, "\u{4ee3}\u{7406}\u{9519}\u{8bef}: Queue is closed");
}
