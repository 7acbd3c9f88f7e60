use kv_router::json::{Json, JsonLeaf, JsonTree};
use kv_router::payload_logger::{
    headers_to_json, is_truthy, loggable_headers, HeaderLine, PayloadLogger, DYN_LOG_PAYLOADS,
    PAYLOAD_LOG_TARGET,
};
use kv_router::payload_logging_stream::{
    chat_payload_json, ChatChoiceDelta, ChatChunk, ChatPayload, ChatPayloadAccumulator,
    ChatPayloadLoggingStream, CompletionChoiceDelta, CompletionChunk,
    CompletionPayloadLoggingStream, DeltaContent, FinishReason, FunctionDelta, ToolCallDelta,
    Usage,
};

const ENDPOINT: &str = "OpenAIServingChat";

fn as_value(json: Json) -> serde_json::Value {
    match json {
        JsonTree::Null => serde_json::Value::Null,
        JsonTree::Text(text) => text.into(),
        JsonTree::Array(items) => items.into_iter().map(as_value).collect(),
        JsonTree::Object(fields) => serde_json::Value::Object(
            fields.into_iter().map(|(name, field)| (name, as_value(field))).collect(),
        ),
        JsonTree::Other(JsonLeaf::Number(n)) => n.into(),
        JsonTree::Other(JsonLeaf::Flag(flag)) => flag.into(),
    }
}

fn line(name: &str, value: &[u8]) -> HeaderLine {
    HeaderLine { name: name.to_string(), value: value.to_vec() }
}

#[test]
fn payload_logging_is_opt_in() {
    assert_eq!(DYN_LOG_PAYLOADS, "DYN_LOG_PAYLOADS");
    assert!(!PayloadLogger::new(None).is_enabled());
    for value in ["1", "true", "TRUE", "on", "Yes"] {
        assert!(is_truthy(value));
        assert!(PayloadLogger::new(Some(value)).is_enabled());
    }
    for value in ["", "0", "false", "off", "no", " true"] {
        assert!(!PayloadLogger::new(Some(value)).is_enabled());
    }
}

#[test]
fn records_carry_what_they_are_given() {
    let on = PayloadLogger::new(Some("1"));
    let request = on.log_request("chatcmpl-1", ENDPOINT, 7, "{}").unwrap();
    assert_eq!(request.target, "dynamo_payload");
    assert_eq!(request.rid, "chatcmpl-1");
    assert_eq!(request.endpoint, ENDPOINT);
    assert_eq!(request.payload, 7);
    assert_eq!(request.headers, "{}");
    let response = on.log_response("chatcmpl-1", ENDPOINT, 8).unwrap();
    assert_eq!(response.target, PAYLOAD_LOG_TARGET);
    assert_eq!(response.rid, "chatcmpl-1");
    assert_eq!(response.payload, 8);
    let off = PayloadLogger::new(None);
    assert!(off.log_request("chatcmpl-1", ENDPOINT, 7, "{}").is_none());
    assert!(off.log_response("chatcmpl-1", ENDPOINT, 8).is_none());
}

#[test]
fn sensitive_and_unreadable_headers_are_left_out() {
    let lines = vec![
        line("user-agent", b"curl \"8\""),
        line("authorization", b"Bearer secret"),
        line("cookie", b"a=b"),
        line("set-cookie", b"a=b"),
        line("x-raw", &[0xff]),
        line("accept", b"text/html"),
        line("accept", b"*/*"),
    ];
    let fields = loggable_headers(&lines);
    assert_eq!(
        fields,
        vec![
            ("accept".to_string(), "*/*".to_string()),
            ("user-agent".to_string(), "curl \"8\"".to_string()),
        ]
    );
    assert_eq!(
        headers_to_json(&lines),
        "{\"accept\":\"*/*\",\"user-agent\":\"curl \\\"8\\\"\"}"
    );
    assert_eq!(headers_to_json(&vec![]), "{}");
}

fn text(index: u32, content: &str) -> ChatChoiceDelta {
    ChatChoiceDelta {
        index,
        content: Some(DeltaContent::Text(content.to_string())),
        reasoning_content: None,
        tool_calls: None,
        finish_reason: None,
    }
}

fn chunk(choices: Vec<ChatChoiceDelta>) -> ChatChunk {
    ChatChunk { id: "chatcmpl-1".to_string(), model: "m".to_string(), usage: None, choices }
}

fn call(index: u32, id: Option<&str>, name: Option<&str>, arguments: &str) -> ToolCallDelta {
    ToolCallDelta {
        index,
        id: id.map(str::to_string),
        function: Some(FunctionDelta {
            name: name.map(str::to_string),
            arguments: Some(arguments.to_string()),
        }),
    }
}

fn calls(deltas: Vec<ToolCallDelta>) -> ChatChoiceDelta {
    ChatChoiceDelta {
        index: 0,
        content: None,
        reasoning_content: Some("because ".to_string()),
        tool_calls: Some(deltas),
        finish_reason: None,
    }
}

fn gathered(chunks: &[ChatChunk]) -> ChatPayload {
    let mut accum = ChatPayloadAccumulator::new();
    for chunk in chunks {
        accum.observe(chunk);
    }
    accum.into_payload(true)
}

#[test]
fn a_stream_is_gathered_into_one_payload() {
    let usage = Usage { prompt_tokens: 9, completion_tokens: 11, total_tokens: 20 };
    let payload = gathered(&[
        chunk(vec![text(0, "Hel")]),
        chunk(vec![text(1, "other"), text(0, "lo")]),
        ChatChunk { id: "later".to_string(), model: "later".to_string(), ..chunk(vec![]) },
        ChatChunk {
            usage: Some(usage),
            ..chunk(vec![ChatChoiceDelta {
                finish_reason: Some(FinishReason::Stop),
                content: Some(DeltaContent::Parts),
                ..text(0, "")
            }])
        },
    ]);
    assert_eq!(payload.id, "chatcmpl-1");
    assert_eq!(payload.model, "m");
    assert!(payload.stream);
    assert_eq!(payload.usage, Some(usage));
    assert_eq!(payload.choices.len(), 2);
    assert_eq!(payload.choices[0].index, 0);
    assert_eq!(payload.choices[0].content, "Hello");
    assert_eq!(payload.choices[0].reasoning_content, None);
    assert!(payload.choices[0].tool_calls.is_empty());
    assert_eq!(payload.choices[0].finish_reason.unwrap().as_str(), "stop");
    assert_eq!(payload.choices[1].index, 1);
    assert_eq!(payload.choices[1].content, "other");
    assert_eq!(payload.choices[1].finish_reason, None);
    let body = as_value(chat_payload_json(&payload));
    assert_eq!(body["usage"]["prompt_tokens"], 9);
    assert_eq!(body["usage"]["completion_tokens"], 11);
    assert_eq!(body["usage"]["total_tokens"], 20);
    assert!(body["choices"][0]["message"].get("tool_calls").is_none());
    assert!(body["choices"][0]["message"].get("reasoning_content").is_none());
}

#[test]
fn tool_calls_are_gathered_by_index() {
    let payload = gathered(&[
        chunk(vec![calls(vec![call(1, Some("b"), Some("second"), "{}")])]),
        chunk(vec![calls(vec![call(0, Some("a"), Some("first"), "{\"city\":")])]),
        chunk(vec![calls(vec![call(0, Some("late"), None, "\"Tokyo\"}")])]),
    ]);
    let choice = &payload.choices[0];
    assert_eq!(choice.reasoning_content.as_deref(), Some("because because because "));
    assert_eq!(choice.tool_calls.len(), 2);
    assert_eq!(choice.tool_calls[0].index, 0);
    assert_eq!(choice.tool_calls[0].id.as_deref(), Some("a"));
    assert_eq!(choice.tool_calls[0].name.as_deref(), Some("first"));
    assert_eq!(choice.tool_calls[0].arguments, "{\"city\":\"Tokyo\"}");
    assert_eq!(choice.tool_calls[1].name.as_deref(), Some("second"));
    let body = as_value(chat_payload_json(&payload));
    let message = &body["choices"][0]["message"];
    assert_eq!(message["role"], "assistant");
    assert_eq!(message["content"], "");
    assert_eq!(message["reasoning_content"], "because because because ");
    assert_eq!(message["tool_calls"][0]["type"], "function");
    assert_eq!(message["tool_calls"][0]["function"]["arguments"], "{\"city\":\"Tokyo\"}");
    assert_eq!(message["tool_calls"][1]["id"], "b");
}

#[test]
fn how_a_text_is_cut_does_not_matter() {
    let whole = gathered(&[chunk(vec![text(0, "one two")])]);
    let pieces =
        gathered(&[chunk(vec![text(0, "one")]), chunk(vec![text(0, " ")]), chunk(vec![text(0, "two")])]);
    assert_eq!(whole.choices[0].content, pieces.choices[0].content);
}

#[test]
fn a_response_is_logged_once() {
    let on = PayloadLogger::new(Some("true"));
    let mut stream = ChatPayloadLoggingStream::new(on, "rid".to_string(), ENDPOINT);
    stream.observe(Some(&chunk(vec![text(0, "hi")])));
    stream.observe(None);
    let record = stream.emit_log_once(true).unwrap();
    assert_eq!(record.rid, "rid");
    assert_eq!(record.endpoint, ENDPOINT);
    assert_eq!(
        record.payload,
        "{\"id\":\"chatcmpl-1\",\"model\":\"m\",\"choices\":[{\"index\":0,\"message\":\
         {\"role\":\"assistant\",\"content\":\"hi\"},\"finish_reason\":null}],\"stream\":true}"
    );
    assert!(stream.emit_log_once(true).is_none());

    let off = PayloadLogger::new(None);
    let mut stream = ChatPayloadLoggingStream::new(off, "rid".to_string(), ENDPOINT);
    stream.observe(Some(&chunk(vec![text(0, "hi")])));
    assert!(stream.emit_log_once(true).is_none());
}

fn completion(index: u32, text: &str, finish_reason: Option<FinishReason>) -> CompletionChunk {
    CompletionChunk {
        id: "cmpl-1".to_string(),
        model: "m".to_string(),
        usage: None,
        choices: vec![CompletionChoiceDelta { index, text: text.to_string(), finish_reason }],
    }
}

#[test]
fn completions_are_gathered_per_prompt() {
    let on = PayloadLogger::new(Some("true"));
    let mut stream = CompletionPayloadLoggingStream::new(on, "rid".to_string());
    stream.observe(Some(&completion(1, "b", None)));
    stream.observe(Some(&completion(0, "a", None)));
    stream.observe(Some(&completion(1, "c", Some(FinishReason::Length))));
    let record = stream.emit_log_once(false).unwrap();
    assert_eq!(record.endpoint, "OpenAIServingCompletions");
    let body: serde_json::Value = serde_json::from_str(&record.payload).unwrap();
    assert_eq!(body["id"], "cmpl-1");
    assert_eq!(body["stream"], false);
    assert_eq!(body["choices"][0]["index"], 0);
    assert_eq!(body["choices"][0]["text"], "a");
    assert_eq!(body["choices"][1]["text"], "bc");
    assert_eq!(body["choices"][1]["finish_reason"], "length");
    assert!(body.get("usage").is_none());
    assert!(stream.emit_log_once(false).is_none());
}

#[test]
fn finish_reasons_have_wire_names() {
    assert_eq!(FinishReason::Length.as_str(), "length");
    assert_eq!(FinishReason::ToolCalls.as_str(), "tool_calls");
    assert_eq!(FinishReason::ContentFilter.as_str(), "content_filter");
    assert_eq!(FinishReason::FunctionCall.as_str(), "function_call");
}
