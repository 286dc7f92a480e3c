use translation_relay::decode::Protocol;
use translation_relay::probe::{is_success_status, probe_outcome};
use translation_relay::provider::{
    provider_named, validate, ConfigError, ModelConfig, ProviderConfig, ProviderKind,
};
use translation_relay::request::{
    build_request, local_request, plan_translation, RequestBody, PROBE_URL, SYSTEM_PROMPT,
    TRANSLATION_INSTRUCTION,
};

fn provider(base: &str, model: &str, key: Option<&str>) -> ProviderConfig {
    ProviderConfig {
        base_url: base.to_string(),
        model: model.to_string(),
        api_key: key.map(|k| k.to_string()),
    }
}

fn model_config(selected: &str, deepseek_key: Option<&str>) -> ModelConfig {
    ModelConfig {
        selected_model: selected.to_string(),
        ollama: provider("http://127.0.0.1:11434", "qwen3:8b", None),
        deepseek: provider("https://api.deepseek.com", "deepseek-chat", deepseek_key),
        kimi: provider("https://api.moonshot.cn", "moonshot-v1-8k", Some("k-123")),
    }
}

#[test]
fn empty_credential_is_refused_for_remote_kinds() {
    let empty = provider("https://api.deepseek.com", "deepseek-chat", Some(""));
    assert_eq!(validate(ProviderKind::DeepSeek, &empty), Err(ConfigError::MissingCredential));
    assert_eq!(validate(ProviderKind::Kimi, &empty), Err(ConfigError::MissingCredential));
    let absent = provider("https://api.deepseek.com", "deepseek-chat", None);
    assert_eq!(validate(ProviderKind::DeepSeek, &absent), Err(ConfigError::MissingCredential));
}

#[test]
fn local_kind_needs_no_credential() {
    let local = provider("http://127.0.0.1:11434", "qwen3:8b", None);
    assert_eq!(validate(ProviderKind::Local, &local), Ok(()));
    let remote = provider("https://api.deepseek.com", "deepseek-chat", Some("sk-1"));
    assert_eq!(validate(ProviderKind::DeepSeek, &remote), Ok(()));
}

#[test]
fn translate_with_config_fails_on_empty_credential() {
    let r = plan_translation("Hello", &model_config("deepseek", Some("")));
    assert!(matches!(r, Err(ConfigError::MissingCredential)));
}

#[test]
fn unknown_provider_is_unsupported() {
    let r = plan_translation("Hello", &model_config("gpt", Some("sk-1")));
    assert!(matches!(r, Err(ConfigError::UnsupportedProvider)));
    assert_eq!(provider_named("Ollama"), None);
}

#[test]
fn selection_names_map_to_kinds() {
    assert_eq!(provider_named("ollama"), Some(ProviderKind::Local));
    assert_eq!(provider_named("deepseek"), Some(ProviderKind::DeepSeek));
    assert_eq!(provider_named("kimi"), Some(ProviderKind::Kimi));
}

#[test]
fn local_request_is_a_prompt_request() {
    let r = plan_translation("Hello", &model_config("ollama", None)).unwrap();
    assert_eq!(r.url, "http://127.0.0.1:11434/api/generate");
    assert_eq!(r.authorization, None);
    assert_eq!(r.protocol, Protocol::LineJson);
    match r.body {
        RequestBody::Prompt { model, prompt, stream, think } => {
            assert_eq!(model, "qwen3:8b");
            assert_eq!(prompt, format!("{}Hello", TRANSLATION_INSTRUCTION));
            assert!(stream);
            assert!(!think);
        }
        other => panic!("unexpected body {:?}", other),
    }
}

#[test]
fn remote_request_is_a_chat_with_bearer_header() {
    let r = plan_translation("Good morning", &model_config("deepseek", Some("sk-1"))).unwrap();
    assert_eq!(r.url, "https://api.deepseek.com/chat/completions");
    assert_eq!(r.authorization.as_deref(), Some("Bearer sk-1"));
    assert_eq!(r.protocol, Protocol::EventStream);
    match r.body {
        RequestBody::Chat { model, messages, stream } => {
            assert_eq!(model, "deepseek-chat");
            assert!(stream);
            assert_eq!(messages.len(), 2);
            assert_eq!(messages[0].role, "system");
            assert_eq!(messages[0].content, SYSTEM_PROMPT);
            assert_eq!(messages[1].role, "user");
            assert_eq!(messages[1].content, "Good morning");
        }
        other => panic!("unexpected body {:?}", other),
    }
}

#[test]
fn kimi_request_uses_its_versioned_path() {
    let r = plan_translation("x", &model_config("kimi", None)).unwrap();
    assert_eq!(r.url, "https://api.moonshot.cn/v1/chat/completions");
    assert_eq!(r.authorization.as_deref(), Some("Bearer k-123"));
    let direct = build_request(
        ProviderKind::Kimi,
        &provider("https://api.moonshot.cn", "m", Some("k")),
        "x",
    );
    assert_eq!(direct.url, "https://api.moonshot.cn/v1/chat/completions");
}

#[test]
fn fixed_local_request_uses_default_model() {
    let r = local_request("Hi");
    assert_eq!(r.url, "http://127.0.0.1:11434/api/generate");
    match r.body {
        RequestBody::Prompt { model, .. } => assert_eq!(model, "qwen3:8b"),
        other => panic!("unexpected body {:?}", other),
    }
    assert_eq!(PROBE_URL, "http://127.0.0.1:11434/api/tags");
}

#[test]
fn unreachable_endpoint_probes_false() {
    assert!(!probe_outcome(None));
    assert!(!probe_outcome(Some(500)));
    assert!(!probe_outcome(Some(404)));
    assert!(probe_outcome(Some(200)));
}

#[test]
fn success_class_is_two_hundreds() {
    assert!(is_success_status(200));
    assert!(is_success_status(299));
    assert!(!is_success_status(199));
    assert!(!is_success_status(300));
}

#[test]
fn kinds_know_their_protocol_and_credential_need() {
    assert_eq!(ProviderKind::Local.protocol(), Protocol::LineJson);
    assert_eq!(ProviderKind::DeepSeek.protocol(), Protocol::EventStream);
    assert_eq!(ProviderKind::Kimi.protocol(), Protocol::EventStream);
    assert!(!ProviderKind::Local.needs_credential());
    assert!(ProviderKind::DeepSeek.needs_credential());
    assert!(ProviderKind::Kimi.needs_credential());
}
