use vstd::prelude::*;

use crate::text::same_text;

verus! {

/// The backends a translation can go to.
#[derive(Clone, Copy, Debug, PartialEq, Eq, Structural)]
pub enum ProviderKind {
    /// The local engine (Ollama), reached over loopback, no credential.
    Local,
    /// The first remote chat backend (DeepSeek).
    DeepSeek,
    /// The second remote chat backend (Kimi).
    Kimi,
}

impl ProviderKind {
    /// Whether this kind needs a credential: the remote kinds do.
    pub fn needs_credential(&self) -> (r: bool)
        ensures
            r == is_remote(*self),
    {
        match self {
            ProviderKind::Local => false,
            _ => true,
        }
    }
}

/// The configuration of one backend.
#[derive(Debug)]
pub struct ProviderConfig {
    pub base_url: String,
    pub model: String,
    /// The credential; required, and non-empty, for the remote kinds.
    pub api_key: Option<String>,
}

/// The configuration of all backends, and which one is selected.
#[derive(Debug)]
pub struct ModelConfig {
    /// `ollama`, `deepseek` or `kimi`.
    pub selected_model: String,
    pub ollama: ProviderConfig,
    pub deepseek: ProviderConfig,
    pub kimi: ProviderConfig,
}

/// Why a configuration cannot be used. Raised before any request is built.
#[derive(Clone, Copy, Debug, PartialEq, Eq, Structural)]
pub enum ConfigError {
    /// A remote backend was selected with no credential, or an empty one.
    MissingCredential,
    /// The selected backend is not one this library knows.
    UnsupportedProvider,
}

/// The kinds that need a credential.
pub open spec fn is_remote(kind: ProviderKind) -> bool {
    kind != ProviderKind::Local
}

/// The configuration carries a non-empty credential.
pub open spec fn has_credential(config: ProviderConfig) -> bool {
    config.api_key matches Some(k) && k@.len() > 0
}

/// The kind that a selection name stands for.
pub open spec fn provider_of(name: Seq<char>) -> Option<ProviderKind> {
    if name == "ollama"@ {
        Some(ProviderKind::Local)
    } else if name == "deepseek"@ {
        Some(ProviderKind::DeepSeek)
    } else if name == "kimi"@ {
        Some(ProviderKind::Kimi)
    } else {
        None
    }
}

/// What validating `config` for `kind` gives: a remote kind without a
/// credential is refused; anything else passes.
pub open spec fn validation(kind: ProviderKind, config: ProviderConfig) -> Result<(), ConfigError> {
    if is_remote(kind) && !has_credential(config) {
        Err(ConfigError::MissingCredential)
    } else {
        Ok(())
    }
}

/// The kind that `name` selects; `None` for a name this library does not know.
pub fn provider_named(name: &str) -> (r: Option<ProviderKind>)
    ensures
        r == provider_of(name@),
{
    if same_text(name, "ollama") {
        Some(ProviderKind::Local)
    } else if same_text(name, "deepseek") {
        Some(ProviderKind::DeepSeek)
    } else if same_text(name, "kimi") {
        Some(ProviderKind::Kimi)
    } else {
        None
    }
}

/// Checks `config` for `kind`: remote kinds need a non-empty credential, the
/// local kind needs none. Nothing is sent.
pub fn validate(kind: ProviderKind, config: &ProviderConfig) -> (r: Result<(), ConfigError>)
    ensures
        r == validation(kind, *config),
{
    if !kind.needs_credential() {
        return Ok(());
    }
    match &config.api_key {
        Some(k) => if k.as_str().is_empty() {
            Err(ConfigError::MissingCredential)
        } else {
            Ok(())
        },
        None => Err(ConfigError::MissingCredential),
    }
}

impl ModelConfig {
    /// The configuration of the backend of `kind`.
    pub open spec fn spec_for_kind(&self, kind: ProviderKind) -> ProviderConfig {
        match kind {
            ProviderKind::Local => self.ollama,
            ProviderKind::DeepSeek => self.deepseek,
            ProviderKind::Kimi => self.kimi,
        }
    }

    /// The configuration of the backend of `kind`.
    pub fn for_kind(&self, kind: ProviderKind) -> (r: &ProviderConfig)
        ensures
            *r == self.spec_for_kind(kind),
    {
        match kind {
            ProviderKind::Local => &self.ollama,
            ProviderKind::DeepSeek => &self.deepseek,
            ProviderKind::Kimi => &self.kimi,
        }
    }
}

} // verus!
