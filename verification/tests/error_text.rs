use relay::RelayError;

#[test]
fn errors_describe_themselves() {
    let refused = RelayError::CapExceeded {
        period: "daily",
        spent_microusd: 10,
        reserved_microusd: 75,
        request_microusd: 26,
        cap_microusd: 100,
    };
    assert_eq!(
        refused.message(),
        "daily cap exceeded: spent 10 µUSD, reserved 75 µUSD, request needs 26 µUSD, cap is 100 µUSD; no provider request was sent"
    );
    assert_eq!(
        RelayError::ContextExceeded { requested_tokens: 1001, max_context: 1000 }.message(),
        "request requires up to 1001 tokens but model context is 1000 tokens"
    );
    assert_eq!(
        RelayError::PendingReconciliation { reservation_id: "r1".into(), reason: "timeout".into() }.message(),
        "provider outcome is ambiguous; reservation r1 remains held for reconciliation: timeout"
    );
    assert_eq!(RelayError::UnknownModel("x".into()).message(), "unknown model or alias 'x'");
    assert_eq!(
        RelayError::Provider { provider: "openai".into(), status: 429, message: "slow".into() }.message(),
        "provider 'openai' rejected the request (429): slow"
    );
}
