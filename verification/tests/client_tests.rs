use llm_gateway::client::{bind_client, BoundClient, LLMError};

#[test]
fn an_openrouter_credential_binds_the_openrouter_adapter() {
    let r = bind_client(
        &"openrouter".to_string(),
        &"sk-or".to_string(),
        &"deepseek/deepseek-chat".to_string(),
    );
    match r {
        BoundClient::OpenRouter(c) => {
            assert_eq!(c.api_key().as_str(), "sk-or");
            assert_eq!(c.model().as_str(), "deepseek/deepseek-chat");
        }
        _ => panic!("expected the OpenRouter adapter"),
    }
}

#[test]
fn a_gemini_credential_binds_the_gemini_adapter() {
    let r = bind_client(
        &"gemini".to_string(),
        &"sk-gm".to_string(),
        &"unused".to_string(),
    );
    match r {
        BoundClient::Gemini(c) => assert_eq!(c.api_key().as_str(), "sk-gm"),
        _ => panic!("expected the Gemini adapter"),
    }
}

#[test]
fn an_unknown_vendor_kind_is_reported_as_unsupported() {
    let r = bind_client(
        &"mystery".to_string(),
        &"sk".to_string(),
        &"m".to_string(),
    );
    match r {
        BoundClient::Unsupported(kind) => assert_eq!(kind, "mystery"),
        _ => panic!("expected Unsupported"),
    }
    // Binding is case-sensitive: normalization happens in the filter parser.
    assert!(matches!(
        bind_client(&"Gemini".to_string(), &"sk".to_string(), &"m".to_string()),
        BoundClient::Unsupported(_)
    ));
}

#[test]
fn llm_errors_convert_from_strings() {
    let e: LLMError = LLMError::from("boom".to_string());
    assert_eq!(e, LLMError("boom".to_string()));
}
