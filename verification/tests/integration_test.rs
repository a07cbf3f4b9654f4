use tunnel_proxy::codec::{encode_client_message, encode_proxy_request, parse_client_message, parse_proxy_request};
use tunnel_proxy::logging::LoggingService;
use tunnel_proxy::protocol::{ClientMessage, ProxyRequest};
use tunnel_proxy::queue::{DequeueStart, MessageQueue};
use tunnel_proxy::server::ServerConfig;

#[test]
fn test_message_queue_basic_operations() {
    let mut queue: MessageQueue<String> = MessageQueue::new(100);

    queue.enqueue("test_message".to_string());

    match queue.dequeue(10) {
        DequeueStart::Ready(message) => assert_eq!(message, "test_message"),
        _ => panic!("expected a buffered message"),
    }
}

#[test]
fn test_message_serialization() {
    let mut headers = Vec::new();
    headers.push(("content-type".to_string(), "application/json".to_string()));

    let mut query_params = Vec::new();
    query_params.push(("limit".to_string(), "10".to_string()));

    let proxy_request = ProxyRequest {
        path: "/api/test".to_string(),
        method: "GET".to_string(),
        headers,
        query_params,
        body: "".to_string(),
        request_id: "test_123".to_string(),
    };

    let json = encode_proxy_request(&proxy_request);
    let deserialized: ProxyRequest = parse_proxy_request(&json).expect("request must parse");

    assert_eq!(proxy_request.path, deserialized.path);
    assert_eq!(proxy_request.method, deserialized.method);
    assert_eq!(proxy_request.request_id, deserialized.request_id);

    let response_headers = ClientMessage::ResponseHeaders {
        request_id: "test_123".to_string(),
        status: 200,
        headers: Vec::new(),
    };

    let json = encode_client_message(&response_headers);
    let deserialized = parse_client_message(&json).expect("frame must parse");

    match deserialized {
        ClientMessage::ResponseHeaders { request_id, status, .. } => {
            assert_eq!(request_id, "test_123");
            assert_eq!(status, 200);
        }
        _ => panic!("Wrong message type deserialized"),
    }
}

#[test]
fn test_request_id_generation() {
    let request_id = tunnel_proxy::ids::generate_request_id();

    assert!(request_id.contains('_'));
    assert!(request_id.len() > 10);

    let request_id2 = tunnel_proxy::ids::generate_request_id();

    assert_ne!(request_id, request_id2);
}

#[test]
fn test_logging_service_format() {
    let logger = LoggingService::new("TestService");
    let timestamp = chrono::Utc::now().to_rfc3339();

    let formatted = logger.format_message("INFO", &timestamp, "Test message");

    assert!(formatted.contains("INFO"));
    assert!(formatted.contains("TestService"));
    assert!(formatted.contains("Test message"));
    assert!(formatted.contains(&timestamp[..10]));
}

#[test]
fn test_server_config_defaults() {
    let config = ServerConfig::default();
    assert_eq!(config.http_port, 8889);
    assert_eq!(config.ws_port, 9998);
    assert_eq!(config.host, "0.0.0.0");
}
