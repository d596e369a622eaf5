use relay::adapters::{
    anthropic_response, anthropic_wire, capabilities_chat, conservative_token_estimate, is_success_status, openai_wire,
    openai_response, provider_failure, provider_kind, provider_name, safe_provider_message, AnthropicContent,
    ProviderKind,
};
use relay::request::{Capability, Message, RelayRequest, Role, Usage};
use relay::RelayError;

#[test]
fn estimate_is_deterministic_and_conservative() {
    let request = RelayRequest {
        messages: vec![Message::user("hello")],
        model: "model".into(),
        max_output_tokens: Some(10),
        stream: false,
        metadata: Default::default(),
    };
    let first = conservative_token_estimate(&request).unwrap();
    let second = conservative_token_estimate(&request).unwrap();
    assert_eq!(first, second);
    assert!(first.input_tokens >= 5);
}

#[test]
fn streaming_is_rejected_before_transport() {
    let request = RelayRequest { stream: true, ..Default::default() };
    assert!(matches!(conservative_token_estimate(&request), Err(RelayError::StreamingUnsupported)));
}

#[test]
fn estimate_counts_bytes_and_message_overhead() {
    let request = RelayRequest {
        messages: vec![Message::user("héllo"), Message { role: Role::System, content: String::new() }],
        ..Default::default()
    };
    assert_eq!(conservative_token_estimate(&request).unwrap().input_tokens, 6 + 16 + 0 + 16 + 16);
    assert_eq!(conservative_token_estimate(&RelayRequest::default()).unwrap().input_tokens, 16);
}

#[test]
fn providers_have_chat_adapters() {
    assert_eq!(provider_kind("openai"), Ok(ProviderKind::OpenAi));
    assert_eq!(provider_kind("anthropic"), Ok(ProviderKind::Anthropic));
    assert_eq!(provider_kind("medha"), Err(RelayError::UnsupportedProvider("medha".into())));
    assert_eq!(provider_name(ProviderKind::Anthropic), "anthropic");
    let caps = capabilities_chat();
    assert!(caps.contains(&Capability::Chat));
    assert!(!caps.contains(&Capability::Embed));
    assert!(!caps.contains(&Capability::Consensus));
}

#[test]
fn provider_errors_are_summarised_not_echoed() {
    assert_eq!(safe_provider_message(r#"{"error":{"message":"bad key"}}"#), "bad key");
    assert_eq!(safe_provider_message("<html>gateway</html>"), "provider request failed");
    let long = format!(r#"{{"error":{{"message":"{}"}}}}"#, "x".repeat(700));
    assert_eq!(safe_provider_message(&long).chars().count(), 500);
    assert_eq!(
        provider_failure("openai", 401, r#"{"error":{"message":"no"}}"#),
        RelayError::Provider { provider: "openai".into(), status: 401, message: "no".into() }
    );
}

#[test]
fn anthropic_wire_separates_system_text() {
    let request = RelayRequest {
        messages: vec![
            Message { role: Role::System, content: "be brief".into() },
            Message::user("say hello"),
            Message { role: Role::System, content: "be kind".into() },
            Message { role: Role::Assistant, content: "hi".into() },
        ],
        model: "test-api-model".into(),
        max_output_tokens: None,
        stream: false,
        metadata: Default::default(),
    };
    let wire = anthropic_wire(&request).unwrap();
    assert_eq!(wire.model, "test-api-model");
    assert_eq!(wire.system.as_deref(), Some("be brief\n\nbe kind"));
    assert_eq!(wire.messages, vec![("user", "say hello".to_string()), ("assistant", "hi".to_string())]);
    assert_eq!(wire.max_tokens, 1024);
    assert!(!wire.stream);
    let streaming = RelayRequest { stream: true, ..request };
    assert!(matches!(anthropic_wire(&streaming), Err(RelayError::StreamingUnsupported)));
    assert!(matches!(openai_wire(&streaming), Err(RelayError::StreamingUnsupported)));
}

#[test]
fn replies_become_responses() {
    let content = vec![
        AnthropicContent { kind: "text".into(), text: Some("hel".into()) },
        AnthropicContent { kind: "tool_use".into(), text: Some("ignored".into()) },
        AnthropicContent { kind: "text".into(), text: Some("lo".into()) },
    ];
    let usage = Usage { input_tokens: 11, output_tokens: 3 };
    let response = anthropic_response("test-api-model", &content, Some(usage), None, 5, "{}".into()).unwrap();
    assert_eq!(response.text, "hello");
    assert_eq!(response.model, "test-api-model");
    assert_eq!(response.usage, usage);
    assert!(matches!(
        anthropic_response("m", &content, None, None, 5, "{}".into()),
        Err(RelayError::InvalidUsage(m)) if m == "Anthropic response omitted the usage object"
    ));
    assert!(matches!(
        anthropic_response("m", &Vec::new(), Some(usage), None, 5, "{}".into()),
        Err(RelayError::InvalidUsage(m)) if m == "Anthropic response contained no text"
    ));

    let reply = openai_response("m", Some(Some("hello".into())), Some(usage), Some("served".into()), 9, "{}".into())
        .unwrap();
    assert_eq!((reply.text.as_str(), reply.model.as_str(), reply.latency_ms), ("hello", "served", 9));
    assert!(matches!(
        openai_response("m", None, Some(usage), None, 1, "{}".into()),
        Err(RelayError::InvalidUsage(m)) if m == "OpenAI response had no choices"
    ));
    assert!(matches!(
        openai_response("m", Some(None), Some(usage), None, 1, "{}".into()),
        Err(RelayError::InvalidUsage(m)) if m == "OpenAI response choice contained no text"
    ));
}

#[test]
fn openai_wire_keeps_every_message_with_its_role() {
    let request = RelayRequest {
        messages: vec![
            Message { role: Role::System, content: "be brief".into() },
            Message::user("say hello"),
            Message { role: Role::Assistant, content: "hi".into() },
        ],
        model: "test-api-model".into(),
        max_output_tokens: None,
        stream: false,
        metadata: Default::default(),
    };
    let wire = openai_wire(&request).unwrap();
    assert_eq!(wire.model, "test-api-model");
    assert_eq!(
        wire.messages,
        vec![("system", "be brief".to_string()), ("user", "say hello".to_string()), ("assistant", "hi".to_string())]
    );
    assert_eq!(wire.max_tokens, None);
    assert!(!wire.stream);
    assert!(is_success_status(200) && is_success_status(299));
    assert!(!is_success_status(199) && !is_success_status(300) && !is_success_status(404));
}
