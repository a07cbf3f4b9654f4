use tunnel_proxy::codec::{encode_client_message, encode_proxy_request, parse_client_message, parse_proxy_request};
use tunnel_proxy::ids::request_id_from;
use tunnel_proxy::protocol::{ClientMessage, ProxyRequest, StreamEndMessage};
use tunnel_proxy::request::query_params_from;

#[test]
fn every_frame_variant_round_trips() {
    let variants = vec![
        ClientMessage::ResponseHeaders {
            request_id: "r1".to_string(),
            status: 200,
            headers: vec![("content-type".to_string(), "text/plain".to_string())],
        },
        ClientMessage::Chunk { request_id: "r2".to_string(), data: "some body".to_string() },
        ClientMessage::Error {
            request_id: "r3".to_string(),
            status: Some(404),
            message: "not found".to_string(),
        },
        ClientMessage::Error {
            request_id: "r4".to_string(),
            status: None,
            message: "broke".to_string(),
        },
        ClientMessage::StreamClose { request_id: "r5".to_string() },
    ];
    for message in variants {
        let text = encode_client_message(&message);
        let back = parse_client_message(&text).expect("canonical text must parse");
        assert_eq!(message, back);
    }
}

#[test]
fn outbound_request_round_trips_field_for_field() {
    let request = ProxyRequest {
        path: "/api/v1/items".to_string(),
        method: "POST".to_string(),
        headers: vec![
            ("content-type".to_string(), "application/json".to_string()),
            ("x-token".to_string(), "abc123".to_string()),
        ],
        query_params: vec![("limit".to_string(), "10".to_string())],
        body: "{\"k\":\"v\"}".to_string(),
        request_id: "1714_abcdefghi".to_string(),
    };
    let text = encode_proxy_request(&request);
    let back = parse_proxy_request(&text).expect("canonical text must parse");
    assert_eq!(request.path, back.path);
    assert_eq!(request.method, back.method);
    assert_eq!(request.headers, back.headers);
    assert_eq!(request.query_params, back.query_params);
    assert_eq!(request.body, back.body);
    assert_eq!(request.request_id, back.request_id);
}

#[test]
fn escaped_characters_survive_the_round_trip() {
    let message = ClientMessage::Chunk {
        request_id: "q\"uo\\te".to_string(),
        data: "line1\nline2\r\ttabbed \"quoted\" back\\slash".to_string(),
    };
    let text = encode_client_message(&message);
    let back = parse_client_message(&text).expect("escaped text must parse");
    assert_eq!(message, back);
}

#[test]
fn encoder_output_is_plain_json() {
    let message = ClientMessage::ResponseHeaders {
        request_id: "id9".to_string(),
        status: 201,
        headers: vec![("a".to_string(), "b".to_string())],
    };
    let text = encode_client_message(&message);
    let value: serde_json::Value = serde_json::from_str(&text).expect("must be valid JSON");
    assert_eq!(value["event_type"], "response_headers");
    assert_eq!(value["request_id"], "id9");
    assert_eq!(value["status"], 201);
    assert_eq!(value["headers"]["a"], "b");

    let request = ProxyRequest {
        path: "/p".to_string(),
        method: "GET".to_string(),
        headers: Vec::new(),
        query_params: Vec::new(),
        body: "hi\nthere".to_string(),
        request_id: "x_1".to_string(),
    };
    let value: serde_json::Value =
        serde_json::from_str(&encode_proxy_request(&request)).expect("must be valid JSON");
    assert_eq!(value["path"], "/p");
    assert_eq!(value["body"], "hi\nthere");
}

#[test]
fn malformed_frames_are_rejected() {
    assert!(parse_client_message("").is_none());
    assert!(parse_client_message("{}").is_none());
    assert!(parse_client_message("{\"event_type\":\"bogus\",\"request_id\":\"x\"}").is_none());
    // trailing garbage after a well-formed frame
    let mut text = encode_client_message(&ClientMessage::StreamClose {
        request_id: "r".to_string(),
    });
    text.push(' ');
    assert!(parse_client_message(&text).is_none());
    // a status that does not fit a 16-bit value
    assert!(parse_client_message(
        "{\"event_type\":\"response_headers\",\"request_id\":\"r\",\"status\":99999,\"headers\":{}}"
    )
    .is_none());
}

#[test]
fn query_strings_split_and_drop_malformed_pairs() {
    let pairs = query_params_from("a=1&b=2&bad&c=3");
    assert_eq!(
        pairs,
        vec![
            ("a".to_string(), "1".to_string()),
            ("b".to_string(), "2".to_string()),
            ("c".to_string(), "3".to_string()),
        ]
    );

    assert_eq!(query_params_from(""), Vec::<(String, String)>::new());

    // the value is the text between the first and second separator
    assert_eq!(query_params_from("k=v=w"), vec![("k".to_string(), "v".to_string())]);

    // a repeated key resolves last-write-wins
    assert_eq!(query_params_from("k=1&k=2"), vec![("k".to_string(), "2".to_string())]);
}

#[test]
fn request_ids_have_the_documented_shape() {
    let id = request_id_from(1234, &vec![0, 0, 0, 0, 0, 0, 0, 0, 0]);
    // 1234 mod 256 is 210, and 210 mod 26 is 2: every letter is `c`
    assert_eq!(id, "1234_ccccccccc");

    let id = request_id_from(-5, &vec![1, 2, 3, 4, 5, 6, 7, 8, 9]);
    assert!(id.starts_with("-5_"));
    assert_eq!(id.len(), 3 + 9);
    for c in id[3..].chars() {
        assert!(c.is_ascii_lowercase());
    }
}

#[test]
fn stream_end_sentinel_has_its_fixed_tag() {
    assert_eq!(StreamEndMessage::new().message_type, "STREAM_END");
}
