use llm_core::{
    resolve, DeploymentMode, LLMError, LLMProviderConfig, LLMProviderType, ModelParameters,
    StringMap,
};

fn config(
    provider_type: LLMProviderType,
    model_name: &str,
    deployment: DeploymentMode,
    base_url: Option<&str>,
    api_key: Option<&str>,
) -> LLMProviderConfig {
    let mut headers = StringMap::new();
    headers.insert("x-trace".to_string(), "on".to_string());
    LLMProviderConfig {
        provider_type,
        model_name: model_name.to_string(),
        deployment,
        base_url: base_url.map(|s| s.to_string()),
        api_key: api_key.map(|s| s.to_string()),
        headers,
        parameters: ModelParameters::default(),
        timeout_seconds: 30,
        max_retries: 3,
    }
}

fn invalid_config_message(config: LLMProviderConfig) -> String {
    match resolve(config) {
        Err(LLMError::InvalidConfig(message)) => message,
        other => panic!("expected InvalidConfig, got {:?}", other),
    }
}

#[test]
fn remote_hosted_vendor_without_credential_is_invalid() {
    let c = config(LLMProviderType::OpenAI, "gpt-4", DeploymentMode::Remote, None, None);
    assert_eq!(invalid_config_message(c), "authentication: provider needs an API key");
}

#[test]
fn every_hosted_vendor_needs_a_credential_when_remote() {
    for kind in [
        LLMProviderType::Claude,
        LLMProviderType::OpenAI,
        LLMProviderType::Gemini,
        LLMProviderType::Mistral,
        LLMProviderType::AzureOpenAI,
    ] {
        let c = config(kind, "m", DeploymentMode::Remote, Some("https://example.test"), None);
        assert_eq!(invalid_config_message(c), "authentication: provider needs an API key");
    }
}

#[test]
fn empty_credential_counts_as_missing() {
    let c = config(LLMProviderType::Claude, "large-1", DeploymentMode::Remote, None, Some(""));
    assert_eq!(invalid_config_message(c), "authentication: provider needs an API key");
}

#[test]
fn auto_with_local_runner_resolves_to_local() {
    let c = config(LLMProviderType::Ollama, "llama3", DeploymentMode::Auto, None, None);
    let r = resolve(c).unwrap();
    assert_eq!(r.deployment(), DeploymentMode::Local);
    assert_eq!(r.provider_type(), LLMProviderType::Ollama);
    assert_eq!(r.model_name(), "llama3");
    assert_eq!(r.endpoint().map(|s| s.as_str()), Some("http://localhost:11434"));
    assert_eq!(r.api_key(), None);

    let c = config(LLMProviderType::LlamaCpp, "phi", DeploymentMode::Auto, None, None);
    let r = resolve(c).unwrap();
    assert_eq!(r.deployment(), DeploymentMode::Local);
    assert_eq!(r.endpoint().map(|s| s.as_str()), Some("http://localhost:8080"));
}

#[test]
fn auto_with_hosted_vendor_resolves_to_remote() {
    let c = config(LLMProviderType::Claude, "large-1", DeploymentMode::Auto, None, Some("k"));
    let r = resolve(c).unwrap();
    assert_eq!(r.deployment(), DeploymentMode::Remote);
    assert_eq!(r.endpoint().map(|s| s.as_str()), Some("https://api.anthropic.com"));
    assert_eq!(r.api_key().map(|s| s.as_str()), Some("k"));
}

#[test]
fn auto_with_hosted_vendor_and_no_credential_is_invalid() {
    let c = config(LLMProviderType::Gemini, "gemini", DeploymentMode::Auto, None, None);
    assert_eq!(invalid_config_message(c), "authentication: provider needs an API key");
}

#[test]
fn auto_with_custom_kind_is_remote_and_needs_a_base_url() {
    let c = config(LLMProviderType::Custom, "m", DeploymentMode::Auto, None, None);
    assert_eq!(invalid_config_message(c), "remote deployment needs a base URL");
    let c = config(LLMProviderType::Custom, "m", DeploymentMode::Auto, Some("http://h"), None);
    let r = resolve(c).unwrap();
    assert_eq!(r.deployment(), DeploymentMode::Remote);
    assert_eq!(r.endpoint().map(|s| s.as_str()), Some("http://h"));
}

#[test]
fn empty_model_name_is_invalid() {
    let c = config(LLMProviderType::Ollama, "", DeploymentMode::Local, None, None);
    assert_eq!(invalid_config_message(c), "model name must not be empty");
}

#[test]
fn empty_model_name_is_reported_before_other_faults() {
    let c = config(LLMProviderType::AzureOpenAI, "", DeploymentMode::Remote, None, None);
    assert_eq!(invalid_config_message(c), "model name must not be empty");
}

#[test]
fn missing_endpoint_is_reported_before_missing_credential() {
    let c = config(LLMProviderType::AzureOpenAI, "gpt-4", DeploymentMode::Remote, None, None);
    assert_eq!(invalid_config_message(c), "remote deployment needs a base URL");
}

#[test]
fn empty_base_url_falls_back_to_the_default_endpoint() {
    let c = config(LLMProviderType::Mistral, "m", DeploymentMode::Remote, Some(""), Some("k"));
    let r = resolve(c).unwrap();
    assert_eq!(r.endpoint().map(|s| s.as_str()), Some("https://api.mistral.ai"));
    let c = config(LLMProviderType::Custom, "m", DeploymentMode::Remote, Some(""), None);
    assert_eq!(invalid_config_message(c), "remote deployment needs a base URL");
}

#[test]
fn explicit_base_url_wins_over_the_default() {
    let c = config(
        LLMProviderType::OpenAI,
        "gpt-4",
        DeploymentMode::Remote,
        Some("https://proxy.test/v1"),
        Some("secret"),
    );
    let r = resolve(c).unwrap();
    assert_eq!(r.endpoint().map(|s| s.as_str()), Some("https://proxy.test/v1"));
}

#[test]
fn local_mode_needs_no_credential_and_no_endpoint() {
    let c = config(LLMProviderType::OpenAI, "gpt-4", DeploymentMode::Local, None, None);
    let r = resolve(c).unwrap();
    assert_eq!(r.deployment(), DeploymentMode::Local);
    assert_eq!(r.api_key(), None);
    let c = config(LLMProviderType::Custom, "m", DeploymentMode::Local, None, None);
    let r = resolve(c).unwrap();
    assert_eq!(r.endpoint(), None);
}

#[test]
fn remote_local_runner_needs_no_credential() {
    let c = config(LLMProviderType::Ollama, "llama3", DeploymentMode::Remote, None, None);
    let r = resolve(c).unwrap();
    assert_eq!(r.deployment(), DeploymentMode::Remote);
    assert_eq!(r.endpoint().map(|s| s.as_str()), Some("http://localhost:11434"));
}

#[test]
fn resolution_carries_the_other_values_over() {
    let mut c = config(LLMProviderType::Gemini, "g", DeploymentMode::Remote, None, Some("k"));
    c.timeout_seconds = 12;
    c.max_retries = 7;
    c.parameters.max_tokens = Some(99);
    let r = resolve(c).unwrap();
    assert_eq!(r.timeout_seconds(), 12);
    assert_eq!(r.max_retries(), 7);
    assert_eq!(r.parameters().max_tokens, Some(99));
    assert_eq!(r.parameters().temperature, Some(700));
    assert_eq!(r.headers().get("x-trace").map(|s| s.as_str()), Some("on"));
    assert_eq!(r.headers().len(), 1);
    assert_eq!(
        r.endpoint().map(|s| s.as_str()),
        Some("https://generativelanguage.googleapis.com")
    );
}

#[test]
fn resolving_twice_gives_the_same_result() {
    for kind in [LLMProviderType::Ollama, LLMProviderType::Claude, LLMProviderType::Custom] {
        let a = resolve(config(kind, "m", DeploymentMode::Auto, None, Some("k")));
        let b = resolve(config(kind, "m", DeploymentMode::Auto, None, Some("k")));
        match (a, b) {
            (Ok(x), Ok(y)) => {
                assert_eq!(x.provider_type(), y.provider_type());
                assert_eq!(x.model_name(), y.model_name());
                assert_eq!(x.deployment(), y.deployment());
                assert_eq!(x.endpoint(), y.endpoint());
                assert_eq!(x.api_key(), y.api_key());
                assert_eq!(x.timeout_seconds(), y.timeout_seconds());
                assert_eq!(x.max_retries(), y.max_retries());
            }
            (Err(LLMError::InvalidConfig(x)), Err(LLMError::InvalidConfig(y))) => assert_eq!(x, y),
            other => panic!("outcomes differ: {:?}", other),
        }
    }
}

#[test]
fn resolving_a_resolved_configuration_changes_nothing() {
    let c = config(LLMProviderType::Claude, "large-1", DeploymentMode::Auto, None, Some("k"));
    let first = resolve(c).unwrap();
    let mode = first.deployment();
    let endpoint = first.endpoint().cloned();
    let again = resolve(first.into_config()).unwrap();
    assert_eq!(again.deployment(), mode);
    assert_eq!(again.endpoint().cloned(), endpoint);
    assert_eq!(again.model_name(), "large-1");
    assert_eq!(again.api_key().map(|s| s.as_str()), Some("k"));
    assert_eq!(again.headers().len(), 1);
}

#[test]
fn provider_kinds_are_classified() {
    let all = [
        (LLMProviderType::Claude, false, true, Some("https://api.anthropic.com")),
        (LLMProviderType::OpenAI, false, true, Some("https://api.openai.com/v1")),
        (LLMProviderType::Gemini, false, true, Some("https://generativelanguage.googleapis.com")),
        (LLMProviderType::Ollama, true, false, Some("http://localhost:11434")),
        (LLMProviderType::LlamaCpp, true, false, Some("http://localhost:8080")),
        (LLMProviderType::Mistral, false, true, Some("https://api.mistral.ai")),
        (LLMProviderType::AzureOpenAI, false, true, None),
        (LLMProviderType::Custom, false, false, None),
    ];
    for (kind, local, auth, endpoint) in all {
        assert_eq!(kind.is_local_runner(), local);
        assert_eq!(kind.requires_authentication(), auth);
        assert_eq!(kind.default_endpoint(), endpoint);
    }
}

#[test]
fn each_fault_is_an_invalid_config_error_with_its_message() {
    let expected = [
        (llm_core::ConfigFault::EmptyModelName, "model name must not be empty"),
        (llm_core::ConfigFault::NoEndpoint, "remote deployment needs a base URL"),
        (llm_core::ConfigFault::NoCredential, "authentication: provider needs an API key"),
    ];
    for (fault, message) in expected {
        match fault.into_error() {
            LLMError::InvalidConfig(text) => assert_eq!(text, message),
            other => panic!("expected InvalidConfig, got {:?}", other),
        }
    }
}
