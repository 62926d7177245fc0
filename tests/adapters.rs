use topic_relay::events::{
    choose_delivery, encode_delivery, Delivery, SubscribeData, SubscriptionMode,
};
use topic_relay::logging::setup_tracing;
use topic_relay::protocol::{
    binary_flag, classify_request, is_sse_request, is_ws_request, message_payload,
    normalize_newline_bytes, sse_event_data, ws_inbound, ws_outbound, IncomingValue,
    InboundFrame, OutboundFrame, RequestKind,
};

#[test]
fn event_stream_collapses_crlf() {
    assert_eq!(sse_event_data(b"line1\r\nline2", true), Some("line1\nline2".to_string()));
}

#[test]
fn event_stream_keeps_crlf_as_two_breaks_when_not_collapsing() {
    assert_eq!(sse_event_data(b"line1\r\nline2", false), Some("line1\n\nline2".to_string()));
}

#[test]
fn event_stream_rewrites_lone_carriage_returns() {
    assert_eq!(sse_event_data(b"a\rb\r", true), Some("a\nb\n".to_string()));
    assert_eq!(normalize_newline_bytes(b"\r\r\n", true), b"\n\n".to_vec());
    assert_eq!(normalize_newline_bytes(b"", true), Vec::<u8>::new());
}

#[test]
fn event_stream_skips_invalid_utf8() {
    assert_eq!(sse_event_data(&[0xff, 0x41], true), None);
    assert_eq!(sse_event_data("é".as_bytes(), false), Some("é".to_string()));
}

#[test]
fn structured_mode_falls_back_to_text() {
    match encode_delivery(&b"not json".to_vec(), SubscriptionMode::Json) {
        Delivery::Text(t) => assert_eq!(t, "not json"),
        _ => panic!("expected text"),
    }
}

#[test]
fn structured_mode_decodes_json() {
    match encode_delivery(&b"{\"a\":1}".to_vec(), SubscriptionMode::Json) {
        Delivery::Structured(v) => assert_eq!(v["a"].as_i64(), Some(1)),
        _ => panic!("expected a structured value"),
    }
}

#[test]
fn binary_and_string_modes() {
    match encode_delivery(&vec![0xff, 0x41], SubscriptionMode::Binary) {
        Delivery::Binary(b) => assert_eq!(b, vec![0xff, 0x41]),
        _ => panic!("expected bytes"),
    }
    match encode_delivery(&vec![0xff, 0x41], SubscriptionMode::String) {
        Delivery::Text(t) => assert_eq!(t, "\u{fffd}A"),
        _ => panic!("expected text"),
    }
    match choose_delivery(&b"[1]".to_vec(), SubscriptionMode::Json, None) {
        Delivery::Text(t) => assert_eq!(t, "[1]"),
        _ => panic!("expected text"),
    }
}

#[test]
fn subscription_mode_defaults_to_string() {
    assert_eq!(SubscriptionMode::default(), SubscriptionMode::String);
    let data = SubscribeData("temp".to_string(), SubscriptionMode::default());
    assert_eq!(data.0, "temp");
    assert_eq!(data.1, SubscriptionMode::String);
}

#[test]
fn sse_request_detection() {
    assert!(is_sse_request(Some("text/event-stream")));
    assert!(is_sse_request(Some("Text/Event-Stream, */*")));
    assert!(is_sse_request(Some("application/json;q=0.5, text/EVENT-stream")));
    assert!(!is_sse_request(Some("text/html")));
    assert!(!is_sse_request(Some("")));
    assert!(!is_sse_request(None));
}

#[test]
fn ws_request_detection() {
    assert!(is_ws_request(Some(true), Some(true)));
    assert!(!is_ws_request(Some(false), Some(true)));
    assert!(!is_ws_request(Some(true), None));
    assert!(!is_ws_request(None, Some(true)));
}

#[test]
fn request_classification() {
    assert_eq!(classify_request(true, true), RequestKind::EventStream);
    assert_eq!(classify_request(false, true), RequestKind::Duplex);
    assert_eq!(classify_request(false, false), RequestKind::Plain);
}

#[test]
fn binary_parameter() {
    assert!(binary_flag(Some("1")));
    assert!(binary_flag(Some("true")));
    assert!(binary_flag(Some("TRUE")));
    assert!(binary_flag(Some("True")));
    assert!(!binary_flag(Some("0")));
    assert!(!binary_flag(Some("yes")));
    assert!(!binary_flag(Some("truee")));
    assert!(!binary_flag(None));
}

#[test]
fn ws_frames() {
    assert_eq!(ws_inbound(InboundFrame::Binary(vec![1, 2])), Some(vec![1, 2]));
    assert_eq!(ws_inbound(InboundFrame::Text("hé".to_string())), Some("hé".as_bytes().to_vec()));
    assert_eq!(ws_inbound(InboundFrame::Other), None);
    match ws_outbound(vec![0x68, 0x69], false) {
        OutboundFrame::Text(t) => assert_eq!(t, "hi"),
        _ => panic!("expected text"),
    }
    match ws_outbound(vec![0xfe], false) {
        OutboundFrame::Text(t) => assert_eq!(t, "\u{fffd}"),
        _ => panic!("expected text"),
    }
    match ws_outbound(vec![0xfe], true) {
        OutboundFrame::Binary(b) => assert_eq!(b, vec![0xfe]),
        _ => panic!("expected bytes"),
    }
}

#[test]
fn event_message_payloads() {
    assert_eq!(message_payload(IncomingValue::Binary(vec![9])), vec![9]);
    assert_eq!(message_payload(IncomingValue::Text(Some("hi".to_string()))), b"hi".to_vec());
    assert_eq!(message_payload(IncomingValue::Text(None)), Vec::<u8>::new());
    assert_eq!(message_payload(IncomingValue::Other("42".to_string())), b"42".to_vec());
}

#[test]
fn log_filter_choice() {
    assert_eq!(setup_tracing(Some("info".to_string()), "relay", true), "info");
    assert_eq!(
        setup_tracing(None, "relay", true),
        "warn,relay=debug,tower_http=debug,axum::rejection=trace"
    );
    assert_eq!(setup_tracing(None, "relay", false), "warn,relay=info");
}
