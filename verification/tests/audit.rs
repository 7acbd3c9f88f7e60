use kv_router::audit::{
    create_handle, AuditEventType, AuditHandle, AuditHttpRequestHeaders, AuditRecord,
    AuditSubject, CaptureState, HttpHeader,
};
use kv_router::json::{Json, JsonLeaf, JsonTree};
use kv_router::otel_sink::{
    drop_reason, event_type_attr, header_json, http_json, http_section, logs_endpoint, marker_json,
    marker_payload, otel_http_request_value, otel_log, payload_for_limit, render_header_value,
    serde_threads, OtelHeaderPolicy, OtlpLogsProtocol, ShownHeader, REDACTED_HEADER_VALUE,
};
use std::sync::Arc;

const CAPTURING: CaptureState = CaptureState { enabled: true, force_logging: false };

fn subject(model: &str, store: bool) -> AuditSubject {
    AuditSubject { store: Some(store), stream: None, model: model.to_string() }
}

fn handle_for(streaming: bool) -> AuditHandle {
    let subject = AuditSubject {
        store: Some(true),
        stream: Some(streaming),
        model: "test-model".to_string(),
    };
    create_handle(&subject, "req-test-emit", None, CAPTURING).unwrap()
}

fn header(name: &str, value: &str) -> HttpHeader {
    HttpHeader { name: name.to_string(), values: vec![value.as_bytes().to_vec()] }
}

fn as_value(json: Json) -> serde_json::Value {
    match json {
        JsonTree::Null => serde_json::Value::Null,
        JsonTree::Text(text) => text.into(),
        JsonTree::Array(items) => items.into_iter().map(as_value).collect(),
        JsonTree::Object(fields) => serde_json::Value::Object(
            fields.into_iter().map(|(name, field)| (name, as_value(field))).collect(),
        ),
        JsonTree::Other(JsonLeaf::Number(n)) => n.into(),
        JsonTree::Other(JsonLeaf::Flag(flag)) => flag.into(),
    }
}

fn sample_record() -> AuditRecord<String, String> {
    AuditRecord {
        schema_version: 1,
        event_type: AuditEventType::Request,
        request_id: "req-otel-1".to_string(),
        requested_streaming: true,
        model: "test-model".to_string(),
        request: None,
        response: None,
        otel_http_headers: None,
    }
}

/// When force logging is enabled, a handle is created even when store=false.
#[test]
fn test_force_logging_bypasses_store() {
    let state = CaptureState { enabled: true, force_logging: true };
    let handle = create_handle(&subject("test-model", false), "test-id", None, state);
    assert!(
        handle.is_some(),
        "when logging is forced, a handle should be created even with store=false"
    );
}

#[test]
fn the_store_flag_decides_without_force_logging() {
    assert!(create_handle(&subject("nemotron", true), "store-true", None, CAPTURING).is_some());
    assert!(create_handle(&subject("nemotron", false), "store-false", None, CAPTURING).is_none());
    let silent = AuditSubject { store: None, stream: None, model: "nemotron".to_string() };
    assert!(create_handle(&silent, "store-unset", None, CAPTURING).is_none());
    let idle = CaptureState { enabled: false, force_logging: true };
    assert!(create_handle(&subject("nemotron", true), "idle", None, idle).is_none());
}

#[test]
fn request_record_carries_request_only() {
    let handle = handle_for(true);
    let record: AuditRecord<String, String> = handle.emit_request(Arc::new("run-123".to_string()));
    assert_eq!(record.schema_version, 1);
    assert_eq!(record.event_type, AuditEventType::Request);
    assert_eq!(event_type_attr(record.event_type), "request");
    assert_eq!(record.request_id, "req-test-emit");
    assert_eq!(record.request.as_deref().map(String::as_str), Some("run-123"));
    assert!(record.response.is_none());
}

#[test]
fn response_record_carries_response_only() {
    let handle = handle_for(true);
    let record: AuditRecord<String, String> =
        handle.emit_response(Arc::new("final answer".to_string()));
    assert_eq!(record.event_type, AuditEventType::Response);
    assert_eq!(event_type_attr(record.event_type), "response");
    assert_eq!(record.request_id, "req-test-emit");
    assert_eq!(record.response.as_deref().map(String::as_str), Some("final answer"));
    assert!(record.request.is_none());
}

#[test]
fn emit_request_and_response_publish_two_records_in_order() {
    let handle = handle_for(true);
    assert!(handle.streaming());
    assert_eq!(handle.request_id(), "req-test-emit");
    let records: Vec<AuditRecord<String, String>> = vec![
        handle.emit_request(Arc::new("question".to_string())),
        handle.emit_response(Arc::new("hello".to_string())),
    ];

    assert_eq!(records[0].event_type, AuditEventType::Request);
    assert_eq!(records[0].request_id, "req-test-emit");
    assert!(records[0].request.is_some());
    assert!(records[0].response.is_none());

    assert_eq!(records[1].event_type, AuditEventType::Response);
    assert_eq!(records[1].request_id, "req-test-emit");
    assert!(records[1].request.is_none());
    assert!(records[1].response.is_some());
}

#[test]
fn payload_for_limit_injects_redacted_http_headers_only_for_otel_payload() {
    let mut rec = sample_record();
    rec.otel_http_headers = Some(Arc::new(AuditHttpRequestHeaders {
        headers: vec![
            header("accept", "application/json"),
            header("authorization", "Bearer secret"),
            header("x-forwarded-for", "203.0.113.7"),
            header("x-custom-token-name", "also-secret"),
        ],
    }));
    let shown = http_section(&rec, &OtelHeaderPolicy::default()).unwrap();
    let lines: Vec<(&str, &str)> =
        shown.headers.iter().map(|h| (h.name.as_str(), h.values[0].as_str())).collect();
    assert_eq!(
        lines,
        vec![
            ("accept", "application/json"),
            ("authorization", REDACTED_HEADER_VALUE),
            ("x-forwarded-for", "203.0.113.7"),
            ("x-custom-token-name", REDACTED_HEADER_VALUE),
        ]
    );
    assert!(!shown.headers_truncated);
    assert_eq!(
        as_value(http_json(&shown)).to_string(),
        "{\"request\":{\"headers\":{\"accept\":\"application/json\",\
         \"authorization\":\"[REDACTED]\",\"x-custom-token-name\":\"[REDACTED]\",\
         \"x-forwarded-for\":\"203.0.113.7\"},\"headers_truncated\":false}}"
    );
}

#[test]
fn payload_for_limit_skips_http_headers_on_response_records() {
    let mut rec = sample_record();
    rec.event_type = AuditEventType::Response;
    rec.otel_http_headers = Some(Arc::new(AuditHttpRequestHeaders {
        headers: vec![header("accept", "application/json")],
    }));
    assert!(http_section(&rec, &OtelHeaderPolicy::default()).is_none());
    assert!(http_section(&sample_record(), &OtelHeaderPolicy::default()).is_none());
}

#[test]
fn custom_redact_list_redacts_named_headers() {
    let policy = OtelHeaderPolicy::from_setting(Some("x-title"));
    assert!(policy.should_redact("x-title"));
    let several = OtelHeaderPolicy::from_setting(Some(" X-One,x-two\tx-three "));
    assert!(several.should_redact("x-one"));
    assert!(several.should_redact("x-two"));
    assert!(several.should_redact("x-three"));
    assert!(several.should_redact("authorization"));
    assert!(!several.should_redact("accept"));
}

#[test]
fn default_policy_preserves_nvcf_headers() {
    let policy = OtelHeaderPolicy::default();
    assert!(!policy.should_redact("nvcf-function-id"));
    assert!(!policy.should_redact("nvcf-function-name"));
    assert!(!policy.should_redact("nvcf-ncaid"));
    assert!(!policy.should_redact("nvcf-sub"));
    assert!(!policy.should_redact("nvcf-token-shaped-name"));
}

#[test]
fn payload_over_limit_emits_incomplete_marker() {
    let rec = sample_record();
    let reason = drop_reason("{}", 1).unwrap();
    assert_eq!(reason, "otel_payload_too_large:max_bytes=1:actual_bytes=2");
    assert_eq!(drop_reason("{}", 2), None);

    let (payload, audit_complete, audit_drop_reason) = marker_payload(&rec, reason.clone());
    assert!(!audit_complete);
    assert!(audit_drop_reason.unwrap().starts_with("otel_payload_too_large:"));
    let decoded: serde_json::Value = serde_json::from_str(&payload).unwrap();
    assert_eq!(as_value(marker_json(&rec, &reason)), decoded);
    assert_eq!(decoded["audit_complete"], false);
    assert!(decoded["audit_drop_reason"].as_str().unwrap().starts_with("otel_payload_too_large:"));
    assert!(decoded.get("request").is_none());
    assert!(decoded.get("response").is_none());
    assert_eq!(decoded["schema_version"], 1);
    assert_eq!(decoded["event_type"], "request");
    assert_eq!(decoded["request_id"], "req-otel-1");
    assert_eq!(decoded["model"], "test-model");
    assert_eq!(decoded["requested_streaming"], true);

    let limited = payload_for_limit(&rec, Some("{}".to_string()), 1).unwrap();
    assert_eq!(limited, (payload, false, Some(reason.clone())));
    assert_eq!(
        payload_for_limit(&rec, Some("{}".to_string()), 2),
        Some(("{}".to_string(), true, None))
    );
    assert!(payload_for_limit(&rec, None, 2).is_none());

    let log = otel_log(&rec, "{}".to_string(), Some(reason));
    assert!(!log.audit_complete);
    assert!(log.audit_drop_reason.unwrap().starts_with("otel_payload_too_large:"));
    assert_eq!(log.body, "openai.request");
    assert_eq!(log.endpoint, "openai.chat_completion");
    assert!(otel_log(&rec, "{}".to_string(), None).audit_complete);
}

#[test]
fn header_values_are_bounded_and_printable() {
    let policy = OtelHeaderPolicy::default().with_limits(4, 1000);
    assert_eq!(render_header_value("accept", &b"json".to_vec(), &policy), "json");
    assert_eq!(
        render_header_value("accept", &b"jsons".to_vec(), &policy),
        "[TRUNCATED: bytes=5]"
    );
    assert_eq!(render_header_value("accept", &vec![0xff, 0x41], &policy), "[NON_UTF8: bytes=2]");
    assert_eq!(render_header_value("cookie", &b"a=b".to_vec(), &policy), "[REDACTED]");
}

#[test]
fn the_header_budget_truncates_whole_headers() {
    let headers = AuditHttpRequestHeaders {
        headers: vec![header("accept", "json"), header("host", "here"), header("x", "y")],
    };
    let all = otel_http_request_value(&headers, &OtelHeaderPolicy::default());
    assert_eq!(all.headers.len(), 3);
    let policy = OtelHeaderPolicy::default().with_limits(100, 10);
    let some = otel_http_request_value(&headers, &policy);
    assert_eq!(some.headers.len(), 1);
    assert_eq!(some.headers[0].name, "accept");
    assert!(some.headers_truncated);
}

#[test]
fn protocol_env_defaults_to_http_protobuf() {
    assert_eq!(
        OtlpLogsProtocol::from_settings(None, None),
        (OtlpLogsProtocol::HttpProtobuf, true)
    );
    assert_eq!(
        OtlpLogsProtocol::from_settings(Some("carrier-pigeon"), Some("grpc")),
        (OtlpLogsProtocol::HttpProtobuf, false)
    );
    assert_eq!(
        OtlpLogsProtocol::from_settings(None, Some(" GRPC ")),
        (OtlpLogsProtocol::Grpc, true)
    );
}

#[test]
fn logs_protocol_takes_precedence_over_global() {
    assert_eq!(
        OtlpLogsProtocol::from_settings(Some("grpc"), Some("http/protobuf")).0,
        OtlpLogsProtocol::Grpc
    );
}

#[test]
fn logs_endpoint_uses_signal_specific_endpoint_first() {
    assert_eq!(
        logs_endpoint(
            OtlpLogsProtocol::HttpProtobuf,
            Some("http://collector:9999/custom/logs"),
            Some("http://collector:4318"),
        ),
        "http://collector:9999/custom/logs"
    );
}

#[test]
fn logs_endpoint_falls_back_to_generic_endpoint_not_traces_endpoint() {
    assert_eq!(
        logs_endpoint(OtlpLogsProtocol::HttpProtobuf, None, Some("http://collector:4318")),
        "http://collector:4318/v1/logs"
    );
    assert_eq!(
        logs_endpoint(OtlpLogsProtocol::HttpProtobuf, None, Some("http://collector:4318//")),
        "http://collector:4318/v1/logs"
    );
    assert_eq!(
        logs_endpoint(OtlpLogsProtocol::Grpc, None, Some("http://collector:4318")),
        "http://collector:4318"
    );
    assert_eq!(
        logs_endpoint(OtlpLogsProtocol::HttpProtobuf, None, None),
        "http://localhost:4318/v1/logs"
    );
    assert_eq!(logs_endpoint(OtlpLogsProtocol::Grpc, None, None), "http://localhost:4317");
}

#[test]
fn serialization_threads_default_to_two() {
    assert_eq!(serde_threads(None), 2);
    assert_eq!(serde_threads(Some("8")), 8);
    assert_eq!(serde_threads(Some("0")), 2);
    assert_eq!(serde_threads(Some("many")), 2);
}

#[test]
fn a_repeated_header_is_shown_as_a_list() {
    let shown = |values: &[&str]| ShownHeader {
        name: "accept".to_string(),
        values: values.iter().map(|value| value.to_string()).collect(),
    };
    assert_eq!(as_value(header_json(&shown(&["a"]))).to_string(), "\"a\"");
    assert_eq!(as_value(header_json(&shown(&["a", "b"]))).to_string(), "[\"a\",\"b\"]");
}
