use kv_router::json::JsonTree;
use kv_router::prompt::{
    apply_k3_tool_description_policy, chat_template_in, chat_template_of, choose_formatter,
    config_path, family_names, known_family,
    strip_empty_tool_descriptions, template_source, FormatterChoice, MediaRequestExt, Prompt,
    PromptFormatterArtifact, PromptInputKind, TemplateFileError, TemplateSource, TextInput, TokenInput,
};
use serde_json::Value;

fn tree(value: Value) -> JsonTree<Value> {
    match value {
        Value::Null => JsonTree::Null,
        Value::String(text) => JsonTree::Text(text),
        Value::Array(items) => JsonTree::Array(items.into_iter().map(tree).collect()),
        Value::Object(fields) => {
            JsonTree::Object(fields.into_iter().map(|(name, field)| (name, tree(field))).collect())
        }
        other => JsonTree::Other(other),
    }
}

fn as_json(tree: JsonTree<Value>) -> Value {
    match tree {
        JsonTree::Null => Value::Null,
        JsonTree::Text(text) => Value::String(text),
        JsonTree::Array(items) => Value::Array(items.into_iter().map(as_json).collect()),
        JsonTree::Object(fields) => Value::Object(
            fields.into_iter().map(|(name, field)| (name, as_json(field))).collect(),
        ),
        JsonTree::Other(value) => value,
    }
}

fn parsed(text: &str) -> JsonTree<Value> {
    tree(serde_json::from_str(text).unwrap())
}

/// A tool declared without a description has an empty one backfilled.
const BACKFILLED_TOOLS: &str = r#"[
    {
        "type": "function",
        "function": {
            "name": "no_desc",
            "description": "",
            "parameters": {"type": "object", "properties": {}}
        }
    },
    {
        "type": "function",
        "function": {
            "name": "null_desc",
            "description": null,
            "parameters": {"type": "object", "properties": {}}
        }
    }
]"#;

#[test]
fn policy_on_strips_empty_and_null_descriptions_keeping_other_fields() {
    let out = as_json(apply_k3_tool_description_policy(parsed(BACKFILLED_TOOLS), true));
    let arr = out.as_array().unwrap();
    for tool in arr {
        let function = tool.get("function").unwrap();
        assert!(
            function.get("description").is_none(),
            "empty/null description must be dropped: {tool}"
        );
        assert!(function.get("name").is_some(), "name retained");
        assert!(function.get("parameters").is_some(), "parameters retained");
        assert_eq!(tool.get("type").unwrap(), "function");
    }
    assert_eq!(arr[0]["function"]["name"], "no_desc");
    assert_eq!(arr[1]["function"]["name"], "null_desc");
}

#[test]
fn policy_on_keeps_real_description() {
    let tools = parsed(
        r#"[{
            "type": "function",
            "function": {
                "name": "weather",
                "description": "Get weather",
                "parameters": {"type": "object", "properties": {}}
            }
        }]"#,
    );
    let out = as_json(apply_k3_tool_description_policy(tools, true));
    assert_eq!(out[0]["function"]["description"], "Get weather");
}

#[test]
fn policy_off_preserves_empty_description() {
    let out = as_json(apply_k3_tool_description_policy(parsed(BACKFILLED_TOOLS), false));
    assert_eq!(out[0]["function"]["description"], "");
    assert_eq!(out, serde_json::from_str::<Value>(BACKFILLED_TOOLS).unwrap());
}

#[test]
fn strip_drops_null_and_top_level_description() {
    let tools = parsed(
        r#"[
            {"type": "function", "function": {"name": "a", "description": null, "parameters": {}}},
            {"type": "function", "name": "b", "description": "", "parameters": {}}
        ]"#,
    );
    let tools = as_json(strip_empty_tool_descriptions(tools));
    assert!(tools[0]["function"].get("description").is_none());
    assert_eq!(tools[0]["function"]["name"], "a");
    assert!(tools[1].get("description").is_none(), "top-level empty description dropped");
    assert_eq!(tools[1]["name"], "b");
}

#[test]
fn stripping_keeps_the_order_of_the_other_fields() {
    let tools = parsed(r#"[{"zeta": 1, "description": "", "alpha": 2, "beta": 3}, 7]"#);
    let out = serde_json::to_string(&as_json(strip_empty_tool_descriptions(tools))).unwrap();
    assert_eq!(out, r#"[{"zeta":1,"alpha":2,"beta":3},7]"#);
    let single = parsed(r#"{"description": ""}"#);
    let out = serde_json::to_string(&as_json(strip_empty_tool_descriptions(single))).unwrap();
    assert_eq!(out, r#"{"description":""}"#);
}

#[test]
fn prompts_are_tokens_or_text() {
    let tokens = Prompt::IntegerArray(vec![1, 2]);
    assert_eq!(tokens.prompt_input_type(), PromptInputKind::Tokens);
    assert!(tokens.media_io_kwargs().is_none());
    assert!(matches!(tokens.extract_tokens(), Some(TokenInput::Single(t)) if t == vec![1, 2]));
    let batch = Prompt::ArrayOfIntegerArray(vec![vec![1], vec![2]]);
    assert_eq!(batch.prompt_input_type(), PromptInputKind::TokenBatch);
    assert!(matches!(batch.extract_tokens(), Some(TokenInput::Batch(t)) if t.len() == 2));
    assert!(Prompt::IntegerArray(vec![1]).extract_text().is_none());
    let text = Prompt::Text("hello".to_string());
    assert_eq!(text.prompt_input_type(), PromptInputKind::Text);
    assert!(matches!(text.extract_text(), Some(TextInput::Single(t)) if t == "hello"));
    let texts = Prompt::TextArray(vec!["a".to_string(), "b".to_string()]);
    assert_eq!(texts.prompt_input_type(), PromptInputKind::TextBatch);
    assert!(matches!(texts.extract_text(), Some(TextInput::Batch(t)) if t.len() == 2));
    assert!(Prompt::Text("hello".to_string()).extract_tokens().is_none());
}

#[test]
fn model_families_are_compared_in_lower_case() {
    assert_eq!(
        family_names(Some("DeepSeek_V3"), "Org/DeepSeek-V3"),
        (Some("deepseek_v3".to_string()), "org/deepseek-v3".to_string())
    );
    assert_eq!(family_names(Some(""), "X"), (None, "x".to_string()));
    assert_eq!(family_names(None, "X").0, None);
    assert_eq!(known_family(Some(String::new())), None);
    assert_eq!(known_family(Some("llama".to_string())), Some("llama".to_string()));
}

fn config(path: Option<&str>) -> PromptFormatterArtifact {
    PromptFormatterArtifact::HfTokenizerConfigJson { path: path.map(str::to_string) }
}

#[test]
fn a_formatter_configuration_must_be_a_local_file() {
    assert_eq!(config_path(Some(config(Some("/m/config.json"))), "m").unwrap(), "/m/config.json");
    assert_eq!(
        config_path(None, "m").unwrap_err().message(),
        "MDC does not contain a prompt formatter"
    );
    assert_eq!(
        config_path(Some(config(None)), "m").unwrap_err().message(),
        "HfTokenizerConfigJson for m is a URL, cannot load"
    );
    let jinja = PromptFormatterArtifact::HfChatTemplateJinja { path: None };
    assert_eq!(
        config_path(Some(jinja), "m").unwrap_err().message(),
        "prompt_formatter should not have type HfChatTemplate*"
    );
}

#[test]
fn a_template_may_stand_in_a_file_of_its_own() {
    assert!(matches!(template_source(None, "m"), Ok(TemplateSource::Config)));
    let jinja =
        PromptFormatterArtifact::HfChatTemplateJinja { path: Some("/m/t.jinja".to_string()) };
    assert!(matches!(template_source(Some(jinja), "m"), Ok(TemplateSource::Jinja(p)) if p == "/m/t.jinja"));
    let json = PromptFormatterArtifact::HfChatTemplateJson { path: Some("/m/t.json".to_string()) };
    assert!(matches!(template_source(Some(json), "m"), Ok(TemplateSource::Json(p)) if p == "/m/t.json"));
    let jinja = PromptFormatterArtifact::HfChatTemplateJinja { path: None };
    assert_eq!(
        template_source(Some(jinja), "m").unwrap_err().message(),
        "HfChatTemplateJinja for m is a URL, cannot load"
    );
    let json = PromptFormatterArtifact::HfChatTemplateJson { path: None };
    assert_eq!(
        template_source(Some(json), "m").unwrap_err().message(),
        "HfChatTemplateJson for m is a URL, cannot load"
    );
}

#[test]
fn native_formatters_go_before_templates() {
    let artifact = || Some(config(Some("/m/config.json")));
    assert!(matches!(
        choose_formatter(Some(1), Some(2), artifact(), "m"),
        Ok(FormatterChoice::Native(1))
    ));
    assert!(matches!(
        choose_formatter(None, Some(2), None, "m"),
        Ok(FormatterChoice::Native(2))
    ));
    assert!(matches!(
        choose_formatter::<u8>(None, None, artifact(), "m"),
        Ok(FormatterChoice::Template(file)) if file == "/m/config.json"
    ));
    assert!(choose_formatter::<u8>(None, None, None, "m").is_err());
}

#[test]
fn a_template_file_holds_a_chat_template_field() {
    let text = chat_template_in(r#"{"other": 1, "chat_template": "{{ messages }}"}"#);
    assert!(matches!(text, Ok(JsonTree::Text(t)) if t == "{{ messages }}"));
    let named = r#"{"chat_template": [{"name": "default", "template": "x"}]}"#;
    match chat_template_in(named) {
        Ok(JsonTree::Array(items)) => match &items[0] {
            JsonTree::Object(fields) => {
                assert_eq!(fields[0].0, "name");
                assert!(matches!(&fields[1].1, JsonTree::Text(t) if t == "x"));
            }
            other => panic!("expected an object, got {other:?}"),
        },
        other => panic!("expected a list, got {other:?}"),
    }
    let flag = chat_template_in(r#"{"chat_template": true}"#);
    assert!(matches!(flag, Ok(JsonTree::Other(t)) if t == "true"));
    let number = chat_template_in(r#"{"chat_template": 1.5}"#);
    assert!(matches!(number, Ok(JsonTree::Other(t)) if t == "1.5"));
    assert!(matches!(chat_template_in(r#"{"chat_template": null}"#), Ok(JsonTree::Null)));
}

#[test]
fn a_template_file_without_a_template_is_refused() {
    let refusal = |text: &str| chat_template_in(text).unwrap_err();
    assert_eq!(refusal("{"), TemplateFileError::NotJson);
    assert_eq!(refusal("{} {}"), TemplateFileError::NotJson);
    assert_eq!(refusal("{}"), TemplateFileError::NoChatTemplate);
    assert_eq!(refusal(r#"["chat_template"]"#), TemplateFileError::NoChatTemplate);
    assert_eq!(refusal(r#""chat_template""#), TemplateFileError::NoChatTemplate);
    assert_eq!(
        chat_template_of(JsonTree::Null).unwrap_err(),
        TemplateFileError::NoChatTemplate
    );
    assert_eq!(
        TemplateFileError::NotJson.in_file("/m/t.json").message(),
        "Failed to parse '/m/t.json' as JSON"
    );
    assert_eq!(
        TemplateFileError::NoChatTemplate.in_file("/m/t.json").message(),
        "'/m/t.json' does not contain a 'chat_template' field"
    );
}
