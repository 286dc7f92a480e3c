use vstd::prelude::*;

use crate::decode::Protocol;
use crate::provider::{
    is_remote, provider_of, validate, validation, ConfigError, ModelConfig,
    ProviderConfig, ProviderKind, provider_named,
};

verus! {

/// The instruction put before the source text in a local-engine prompt.
pub const TRANSLATION_INSTRUCTION: &'static str = "请将以下英文文本翻译成中文，保持专业术语不变。";

/// The system message that opens a remote chat conversation.
pub const SYSTEM_PROMPT: &'static str = "你是一个专业的翻译助手，请将英文文本准确翻译成中文，保持专业术语不变。";

/// Path of the local engine's generation endpoint, under its base URL.
pub const GENERATE_PATH: &'static str = "/api/generate";

/// Path of DeepSeek's chat-completions endpoint, under its base URL.
pub const DEEPSEEK_CHAT_PATH: &'static str = "/chat/completions";

/// Path of Kimi's chat-completions endpoint, under its base URL.
pub const KIMI_CHAT_PATH: &'static str = "/v1/chat/completions";

/// Scheme word before the credential in the authorization header.
pub const BEARER_PREFIX: &'static str = "Bearer ";

/// Base URL of the local engine on its fixed loopback address and port.
pub const LOCAL_BASE_URL: &'static str = "http://127.0.0.1:11434";

/// The model the fixed local translation uses.
pub const LOCAL_MODEL: &'static str = "qwen3:8b";

/// The local engine's status endpoint, read by the availability probe.
pub const PROBE_URL: &'static str = "http://127.0.0.1:11434/api/tags";

/// Role of the system message.
pub const SYSTEM_ROLE: &'static str = "system";

/// Role of the user message.
pub const USER_ROLE: &'static str = "user";

/// One message of a chat conversation.
#[derive(Debug)]
pub struct ChatMessage {
    pub role: String,
    pub content: String,
}

/// The payload of an outbound request, to be sent as JSON.
#[derive(Debug)]
pub enum RequestBody {
    /// Local engine: `{model, prompt, stream, think}`.
    Prompt { model: String, prompt: String, stream: bool, think: bool },
    /// Remote chat: `{model, messages, stream}`.
    Chat { model: String, messages: Vec<ChatMessage>, stream: bool },
}

/// A request ready to send: where, with which credential header, what
/// payload, and which protocol the response streams in.
#[derive(Debug)]
pub struct OutboundRequest {
    pub url: String,
    /// The whole `Authorization` header value, where one is sent.
    pub authorization: Option<String>,
    pub body: RequestBody,
    pub protocol: Protocol,
}

/// The path of the endpoint for `kind`, under its base URL.
pub open spec fn endpoint_path(kind: ProviderKind) -> Seq<char> {
    match kind {
        ProviderKind::Local => GENERATE_PATH@,
        ProviderKind::DeepSeek => DEEPSEEK_CHAT_PATH@,
        ProviderKind::Kimi => KIMI_CHAT_PATH@,
    }
}

/// The protocol the response of `kind` streams in.
pub open spec fn protocol_of(kind: ProviderKind) -> Protocol {
    match kind {
        ProviderKind::Local => Protocol::LineJson,
        _ => Protocol::EventStream,
    }
}

impl ProviderKind {
    /// The protocol this kind's responses stream in.
    pub fn protocol(&self) -> (r: Protocol)
        ensures
            r == protocol_of(*self),
    {
        match self {
            ProviderKind::Local => Protocol::LineJson,
            _ => Protocol::EventStream,
        }
    }
}

/// `body` is the two-message conversation for `model` and `text`: the fixed
/// system message, then the text verbatim as the user's, streaming on.
pub open spec fn is_chat_body(body: RequestBody, model: Seq<char>, text: Seq<char>) -> bool {
    match body {
        RequestBody::Chat { model: m, messages, stream } => {
            &&& m@ == model
            &&& stream
            &&& messages@.len() == 2
            &&& messages@[0].role@ == SYSTEM_ROLE@
            &&& messages@[0].content@ == SYSTEM_PROMPT@
            &&& messages@[1].role@ == USER_ROLE@
            &&& messages@[1].content@ == text
        },
        _ => false,
    }
}

/// `body` is the local-engine prompt for `model` and `text`: the fixed
/// instruction followed by the text, streaming on, extended reasoning off.
pub open spec fn is_prompt_body(body: RequestBody, model: Seq<char>, text: Seq<char>) -> bool {
    match body {
        RequestBody::Prompt { model: m, prompt, stream, think } => {
            &&& m@ == model
            &&& prompt@ == TRANSLATION_INSTRUCTION@ + text
            &&& stream
            &&& !think
        },
        _ => false,
    }
}

/// `r` is the request that `kind` with `config` makes for `text`.
pub open spec fn is_request_for(
    r: OutboundRequest,
    kind: ProviderKind,
    config: ProviderConfig,
    text: Seq<char>,
) -> bool {
    &&& r.url@ == config.base_url@ + endpoint_path(kind)
    &&& r.protocol == protocol_of(kind)
    &&& if is_remote(kind) {
        &&& r.authorization matches Some(h) && h@ == BEARER_PREFIX@ + config.api_key->0@
        &&& is_chat_body(r.body, config.model@, text)
    } else {
        &&& r.authorization is None
        &&& is_prompt_body(r.body, config.model@, text)
    }
}

fn join(a: &str, b: &str) -> (r: String)
    ensures
        r@ == a@ + b@,
{
    a.to_owned().concat(b)
}

/// Builds the request that `kind` makes with `config` for `text`. For the
/// local engine, a prompt request at `{base}/api/generate`; for a remote
/// backend, a chat conversation at its chat-completions path, with the
/// credential as a bearer header.
pub fn build_request(kind: ProviderKind, config: &ProviderConfig, text: &str) -> (r:
    OutboundRequest)
    requires
        validation(kind, *config) is Ok,
    ensures
        is_request_for(r, kind, *config, text@),
{
    match kind {
        ProviderKind::Local => OutboundRequest {
            url: join(config.base_url.as_str(), GENERATE_PATH),
            authorization: None,
            body: RequestBody::Prompt {
                model: config.model.clone(),
                prompt: join(TRANSLATION_INSTRUCTION, text),
                stream: true,
                think: false,
            },
            protocol: kind.protocol(),
        },
        _ => {
            let path = match kind {
                ProviderKind::DeepSeek => DEEPSEEK_CHAT_PATH,
                _ => KIMI_CHAT_PATH,
            };
            let key = match &config.api_key {
                Some(k) => k.as_str(),
                None => "",
            };
            let messages = vec![
                ChatMessage { role: SYSTEM_ROLE.to_owned(), content: SYSTEM_PROMPT.to_owned() },
                ChatMessage { role: USER_ROLE.to_owned(), content: text.to_owned() },
            ];
            OutboundRequest {
                url: join(config.base_url.as_str(), path),
                authorization: Some(join(BEARER_PREFIX, key)),
                body: RequestBody::Chat { model: config.model.clone(), messages, stream: true },
                protocol: kind.protocol(),
            }
        },
    }
}

/// Plans a translation with the selected backend: resolves the selection,
/// validates its configuration, and builds its request. Fails with
/// `UnsupportedProvider` for an unknown selection and `MissingCredential` for
/// a remote backend without a credential, in both cases before any request
/// exists.
pub fn plan_translation(text: &str, config: &ModelConfig) -> (r: Result<
    OutboundRequest,
    ConfigError,
>)
    ensures
        provider_of(config.selected_model@) is None ==> r == Err::<OutboundRequest, ConfigError>(
            ConfigError::UnsupportedProvider,
        ),
        provider_of(config.selected_model@) matches Some(kind) ==> match validation(
            kind,
            config.spec_for_kind(kind),
        ) {
            Err(e) => r == Err::<OutboundRequest, ConfigError>(e),
            Ok(_) => r matches Ok(req) && is_request_for(
                req,
                kind,
                config.spec_for_kind(kind),
                text@,
            ),
        },
{
    match provider_named(config.selected_model.as_str()) {
        None => Err(ConfigError::UnsupportedProvider),
        Some(kind) => {
            let pc = config.for_kind(kind);
            match validate(kind, pc) {
                Err(e) => Err(e),
                Ok(()) => Ok(build_request(kind, pc, text)),
            }
        },
    }
}

/// The request of the fixed local translation: the default model on the
/// local engine's loopback address.
pub fn local_request(text: &str) -> (r: OutboundRequest)
    ensures
        r.url@ == LOCAL_BASE_URL@ + GENERATE_PATH@,
        r.authorization is None,
        r.protocol == Protocol::LineJson,
        is_prompt_body(r.body, LOCAL_MODEL@, text@),
{
    let config = ProviderConfig {
        base_url: LOCAL_BASE_URL.to_owned(),
        model: LOCAL_MODEL.to_owned(),
        api_key: None,
    };
    build_request(ProviderKind::Local, &config, text)
}

} // verus!
