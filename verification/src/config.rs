//! Provider configuration and its resolution into a form that a backend
//! can be built from.
//!
//! Resolution checks a configuration once, up front, and settles the
//! deployment mode: `Auto` never reaches a backend.

use crate::error::LLMError;
use crate::params::{ModelParameters, ParametersView};
use crate::string_map::StringMap;
use vstd::prelude::*;
use vstd::string::*;

verus! {

/// The kinds of backend.
#[derive(Debug, Clone, Copy, PartialEq, Eq, Structural)]
pub enum LLMProviderType {
    Claude,
    OpenAI,
    Gemini,
    /// Runs models on this machine.
    Ollama,
    /// Runs models on this machine.
    LlamaCpp,
    Mistral,
    AzureOpenAI,
    /// A backend that the caller describes in full.
    Custom,
}

impl LLMProviderType {
    /// The kinds that run models on this machine.
    pub open spec fn local_runner(self) -> bool {
        self is Ollama || self is LlamaCpp
    }

    /// The hosted vendors; they all ask for a credential.
    pub open spec fn hosted(self) -> bool {
        self is Claude || self is OpenAI || self is Gemini || self is Mistral
            || self is AzureOpenAI
    }

    /// The endpoint that a kind is reached at when none is given. Azure
    /// deployments and custom backends have none.
    pub open spec fn default_endpoint_text(self) -> Option<Seq<char>> {
        match self {
            LLMProviderType::Claude => Some("https://api.anthropic.com"@),
            LLMProviderType::OpenAI => Some("https://api.openai.com/v1"@),
            LLMProviderType::Gemini => Some("https://generativelanguage.googleapis.com"@),
            LLMProviderType::Mistral => Some("https://api.mistral.ai"@),
            LLMProviderType::Ollama => Some("http://localhost:11434"@),
            LLMProviderType::LlamaCpp => Some("http://localhost:8080"@),
            LLMProviderType::AzureOpenAI => None,
            LLMProviderType::Custom => None,
        }
    }

    /// Whether this kind runs models on this machine.
    pub fn is_local_runner(&self) -> (b: bool)
        ensures
            b == self.local_runner(),
    {
        match self {
            LLMProviderType::Ollama => true,
            LLMProviderType::LlamaCpp => true,
            _ => false,
        }
    }

    /// Whether this kind asks for a credential when reached remotely.
    pub fn requires_authentication(&self) -> (b: bool)
        ensures
            b == self.hosted(),
    {
        match self {
            LLMProviderType::Claude => true,
            LLMProviderType::OpenAI => true,
            LLMProviderType::Gemini => true,
            LLMProviderType::Mistral => true,
            LLMProviderType::AzureOpenAI => true,
            _ => false,
        }
    }

    /// The endpoint used when a configuration names none.
    pub fn default_endpoint(&self) -> (url: Option<&'static str>)
        ensures
            match url {
                Some(u) => self.default_endpoint_text() == Some(u@),
                None => self.default_endpoint_text() is None,
            },
    {
        match self {
            LLMProviderType::Claude => Some("https://api.anthropic.com"),
            LLMProviderType::OpenAI => Some("https://api.openai.com/v1"),
            LLMProviderType::Gemini => Some("https://generativelanguage.googleapis.com"),
            LLMProviderType::Mistral => Some("https://api.mistral.ai"),
            LLMProviderType::Ollama => Some("http://localhost:11434"),
            LLMProviderType::LlamaCpp => Some("http://localhost:8080"),
            LLMProviderType::AzureOpenAI => None,
            LLMProviderType::Custom => None,
        }
    }
}

/// Every default endpoint is a non-empty text.
pub proof fn lemma_default_endpoint_nonempty(kind: LLMProviderType)
    ensures
        kind.default_endpoint_text() matches Some(url) ==> url.len() > 0,
{
    reveal_strlit("https://api.anthropic.com");
    reveal_strlit("https://api.openai.com/v1");
    reveal_strlit("https://generativelanguage.googleapis.com");
    reveal_strlit("https://api.mistral.ai");
    reveal_strlit("http://localhost:11434");
    reveal_strlit("http://localhost:8080");
}

/// Where a model runs.
#[derive(Debug, Clone, Copy, PartialEq, Eq, Structural)]
pub enum DeploymentMode {
    /// On this machine.
    Local,
    /// Behind a network API.
    Remote,
    /// To be settled from the provider kind when the configuration is
    /// resolved.
    Auto,
}

/// The mode that a configuration of this kind and mode runs in: `Auto`
/// becomes `Local` for a local runner and `Remote` for every other kind.
pub open spec fn settled_mode(kind: LLMProviderType, mode: DeploymentMode) -> DeploymentMode {
    match mode {
        DeploymentMode::Auto => if kind.local_runner() {
            DeploymentMode::Local
        } else {
            DeploymentMode::Remote
        },
        _ => mode,
    }
}

/// The text of an optional string.
pub open spec fn text_of(s: Option<String>) -> Option<Seq<char>> {
    match s {
        Some(t) => Some(t@),
        None => None,
    }
}

/// A text that is there and not empty.
pub open spec fn usable(s: Option<Seq<char>>) -> bool {
    s matches Some(t) && t.len() > 0
}

/// One backend instance as the caller describes it.
#[derive(Debug, Clone)]
pub struct LLMProviderConfig {
    pub provider_type: LLMProviderType,
    /// The model to ask for; must not be empty.
    pub model_name: String,
    pub deployment: DeploymentMode,
    /// Where to reach the backend, if not at the kind's default endpoint.
    pub base_url: Option<String>,
    /// The credential, for kinds that ask for one.
    pub api_key: Option<String>,
    /// Further transport headers.
    pub headers: StringMap,
    pub parameters: ModelParameters,
    pub timeout_seconds: u64,
    pub max_retries: u32,
}

/// What a configuration holds.
pub struct ConfigView {
    pub provider_type: LLMProviderType,
    pub model_name: Seq<char>,
    pub deployment: DeploymentMode,
    pub base_url: Option<Seq<char>>,
    pub api_key: Option<Seq<char>>,
    pub headers: Map<Seq<char>, Seq<char>>,
    pub parameters: ParametersView,
    pub timeout_seconds: u64,
    pub max_retries: u32,
}

impl View for LLMProviderConfig {
    type V = ConfigView;

    open spec fn view(&self) -> ConfigView {
        ConfigView {
            provider_type: self.provider_type,
            model_name: self.model_name@,
            deployment: self.deployment,
            base_url: text_of(self.base_url),
            api_key: text_of(self.api_key),
            headers: self.headers@,
            parameters: self.parameters@,
            timeout_seconds: self.timeout_seconds,
            max_retries: self.max_retries,
        }
    }
}

/// What a resolved configuration holds.
pub struct ResolvedView {
    pub provider_type: LLMProviderType,
    pub model_name: Seq<char>,
    pub deployment: DeploymentMode,
    pub endpoint: Option<Seq<char>>,
    pub api_key: Option<Seq<char>>,
    pub headers: Map<Seq<char>, Seq<char>>,
    pub parameters: ParametersView,
    pub timeout_seconds: u64,
    pub max_retries: u32,
}

/// Why a configuration cannot be resolved.
#[derive(Debug, Clone, Copy, PartialEq, Eq, Structural)]
pub enum ConfigFault {
    /// The model name is empty.
    EmptyModelName,
    /// The backend is remote, and neither the configuration nor the
    /// provider kind gives an endpoint.
    NoEndpoint,
    /// The backend is a remote hosted vendor, and the credential is
    /// missing or empty.
    NoCredential,
}

impl ConfigFault {
    /// The message that the fault is reported with.
    pub open spec fn text(self) -> Seq<char> {
        match self {
            ConfigFault::EmptyModelName => "model name must not be empty"@,
            ConfigFault::NoEndpoint => "remote deployment needs a base URL"@,
            ConfigFault::NoCredential => "authentication: provider needs an API key"@,
        }
    }

    /// The fault as an `InvalidConfig` error.
    pub fn into_error(self) -> (e: LLMError)
        ensures
            e matches LLMError::InvalidConfig(t) && t@ == self.text(),
    {
        match self {
            ConfigFault::EmptyModelName => LLMError::InvalidConfig(
                String::from_str("model name must not be empty"),
            ),
            ConfigFault::NoEndpoint => LLMError::InvalidConfig(
                String::from_str("remote deployment needs a base URL"),
            ),
            ConfigFault::NoCredential => LLMError::InvalidConfig(
                String::from_str("authentication: provider needs an API key"),
            ),
        }
    }
}

impl ConfigView {
    /// The mode that the configuration runs in.
    pub open spec fn mode(self) -> DeploymentMode {
        settled_mode(self.provider_type, self.deployment)
    }

    /// The endpoint that the configuration is reached at: its own base URL
    /// where that is usable, the default of its kind otherwise.
    pub open spec fn endpoint(self) -> Option<Seq<char>> {
        if usable(self.base_url) {
            self.base_url
        } else {
            self.provider_type.default_endpoint_text()
        }
    }

    /// The first fault of the configuration, if it has one. The model name
    /// is checked first, then the endpoint, then the credential; endpoint
    /// and credential are asked of remote backends only.
    pub open spec fn fault(self) -> Option<ConfigFault> {
        if self.model_name.len() == 0 {
            Some(ConfigFault::EmptyModelName)
        } else if self.mode() == DeploymentMode::Remote && self.endpoint() is None {
            Some(ConfigFault::NoEndpoint)
        } else if self.mode() == DeploymentMode::Remote && self.provider_type.hosted() && !usable(
            self.api_key,
        ) {
            Some(ConfigFault::NoCredential)
        } else {
            None
        }
    }

    /// What resolving the configuration gives: its fault, or the same
    /// values with the mode settled and the endpoint filled in.
    pub open spec fn resolution(self) -> Result<ResolvedView, ConfigFault> {
        match self.fault() {
            Some(f) => Err(f),
            None => Ok(
                ResolvedView {
                    provider_type: self.provider_type,
                    model_name: self.model_name,
                    deployment: self.mode(),
                    endpoint: self.endpoint(),
                    api_key: self.api_key,
                    headers: self.headers,
                    parameters: self.parameters,
                    timeout_seconds: self.timeout_seconds,
                    max_retries: self.max_retries,
                },
            ),
        }
    }
}

impl ResolvedView {
    /// What holds of every resolved configuration: the mode is settled, the
    /// model is named, an endpoint is never empty and is missing only where
    /// the kind has no default, a remote backend has an endpoint, and a
    /// remote hosted vendor has a credential.
    pub open spec fn consistent(self) -> bool {
        &&& self.deployment != DeploymentMode::Auto
        &&& self.model_name.len() > 0
        &&& self.endpoint matches Some(e) ==> e.len() > 0
        &&& self.endpoint is None ==> self.provider_type.default_endpoint_text() is None
        &&& self.deployment == DeploymentMode::Remote ==> self.endpoint is Some
        &&& (self.deployment == DeploymentMode::Remote && self.provider_type.hosted()) ==> usable(
            self.api_key,
        )
    }

    /// The configuration that describes this resolved one.
    pub open spec fn as_config(self) -> ConfigView {
        ConfigView {
            provider_type: self.provider_type,
            model_name: self.model_name,
            deployment: self.deployment,
            base_url: self.endpoint,
            api_key: self.api_key,
            headers: self.headers,
            parameters: self.parameters,
            timeout_seconds: self.timeout_seconds,
            max_retries: self.max_retries,
        }
    }
}

/// A configuration that passed resolution. It cannot be changed, and its
/// mode is `Local` or `Remote`.
#[derive(Debug)]
pub struct ResolvedConfiguration {
    provider_type: LLMProviderType,
    model_name: String,
    deployment: DeploymentMode,
    endpoint: Option<String>,
    api_key: Option<String>,
    headers: StringMap,
    parameters: ModelParameters,
    timeout_seconds: u64,
    max_retries: u32,
}

impl View for ResolvedConfiguration {
    type V = ResolvedView;

    closed spec fn view(&self) -> ResolvedView {
        ResolvedView {
            provider_type: self.provider_type,
            model_name: self.model_name@,
            deployment: self.deployment,
            endpoint: text_of(self.endpoint),
            api_key: text_of(self.api_key),
            headers: self.headers@,
            parameters: self.parameters@,
            timeout_seconds: self.timeout_seconds,
            max_retries: self.max_retries,
        }
    }
}

impl ResolvedConfiguration {
    #[verifier::type_invariant]
    spec fn is_consistent(self) -> bool {
        self@.consistent()
    }

    pub fn provider_type(&self) -> (kind: LLMProviderType)
        ensures
            kind == self@.provider_type,
    {
        self.provider_type
    }

    /// The model to ask for, which is never empty.
    pub fn model_name(&self) -> (name: &String)
        ensures
            name@ == self@.model_name,
            name@.len() > 0,
    {
        proof {
            use_type_invariant(self);
        }
        &self.model_name
    }

    /// The settled mode, which is never `Auto`.
    pub fn deployment(&self) -> (mode: DeploymentMode)
        ensures
            mode == self@.deployment,
            mode != DeploymentMode::Auto,
    {
        proof {
            use_type_invariant(self);
        }
        self.deployment
    }

    /// Where the backend is reached. A remote backend always has an
    /// endpoint.
    pub fn endpoint(&self) -> (url: Option<&String>)
        ensures
            text_of_ref(url) == self@.endpoint,
            self@.deployment == DeploymentMode::Remote ==> url is Some,
            url matches Some(u) ==> u@.len() > 0,
    {
        proof {
            use_type_invariant(self);
        }
        self.endpoint.as_ref()
    }

    /// The credential. A remote hosted vendor always has one.
    pub fn api_key(&self) -> (key: Option<&String>)
        ensures
            text_of_ref(key) == self@.api_key,
            (self@.deployment == DeploymentMode::Remote && self@.provider_type.hosted())
                ==> usable(text_of_ref(key)),
    {
        proof {
            use_type_invariant(self);
        }
        self.api_key.as_ref()
    }

    pub fn headers(&self) -> (headers: &StringMap)
        ensures
            headers@ == self@.headers,
    {
        &self.headers
    }

    pub fn parameters(&self) -> (parameters: &ModelParameters)
        ensures
            parameters@ == self@.parameters,
    {
        &self.parameters
    }

    pub fn timeout_seconds(&self) -> (seconds: u64)
        ensures
            seconds == self@.timeout_seconds,
    {
        self.timeout_seconds
    }

    pub fn max_retries(&self) -> (retries: u32)
        ensures
            retries == self@.max_retries,
    {
        self.max_retries
    }

    /// Turns the resolved configuration back into a description, which
    /// resolves to the same values again.
    pub fn into_config(self) -> (config: LLMProviderConfig)
        ensures
            config@ == self@.as_config(),
            config@.resolution() == Ok::<ResolvedView, ConfigFault>(self@),
    {
        proof {
            use_type_invariant(&self);
            lemma_resolve_idempotent(self@);
        }
        LLMProviderConfig {
            provider_type: self.provider_type,
            model_name: self.model_name,
            deployment: self.deployment,
            base_url: self.endpoint,
            api_key: self.api_key,
            headers: self.headers,
            parameters: self.parameters,
            timeout_seconds: self.timeout_seconds,
            max_retries: self.max_retries,
        }
    }
}

/// The text of an optional borrowed string.
pub open spec fn text_of_ref(s: Option<&String>) -> Option<Seq<char>> {
    match s {
        Some(t) => Some(t@),
        None => None,
    }
}

/// What `resolve` owes for a configuration that holds `c`: a resolved
/// configuration with the values of `c.resolution()`, or the fault of `c`
/// as an `InvalidConfig` error with the fault's message.
pub open spec fn resolves_to(c: ConfigView, res: Result<ResolvedConfiguration, LLMError>) -> bool {
    match c.resolution() {
        Ok(v) => res matches Ok(r) && r@ == v,
        Err(f) => res matches Err(LLMError::InvalidConfig(t)) && t@ == f.text(),
    }
}

/// Two outcomes of resolution that say the same: the same resolved values,
/// or the same rejection.
pub open spec fn same_outcome(
    a: Result<ResolvedConfiguration, LLMError>,
    b: Result<ResolvedConfiguration, LLMError>,
) -> bool {
    match (a, b) {
        (Ok(x), Ok(y)) => x@ == y@,
        (Err(LLMError::InvalidConfig(s)), Err(LLMError::InvalidConfig(t))) => s@ == t@,
        _ => false,
    }
}

/// Whether a string is there and not empty.
fn is_usable(s: &Option<String>) -> (b: bool)
    ensures
        b == usable(text_of(*s)),
{
    match s {
        Some(t) => !t.as_str().is_empty(),
        None => false,
    }
}

/// Validates a configuration and settles its deployment mode.
///
/// The model name must not be empty. `Auto` becomes `Local` for a local
/// runner and `Remote` for every other kind; nothing is probed. A remote
/// backend needs an endpoint, its own or the default of its kind, and a
/// remote hosted vendor needs a non-empty credential. Every rejection is
/// an `InvalidConfig` error.
pub fn resolve(config: LLMProviderConfig) -> (res: Result<ResolvedConfiguration, LLMError>)
    ensures
        resolves_to(config@, res),
{
    if config.model_name.as_str().is_empty() {
        return Err(ConfigFault::EmptyModelName.into_error());
    }
    let deployment = match config.deployment {
        DeploymentMode::Auto => if config.provider_type.is_local_runner() {
            DeploymentMode::Local
        } else {
            DeploymentMode::Remote
        },
        DeploymentMode::Local => DeploymentMode::Local,
        DeploymentMode::Remote => DeploymentMode::Remote,
    };
    let remote = match deployment {
        DeploymentMode::Remote => true,
        _ => false,
    };
    let endpoint = if is_usable(&config.base_url) {
        config.base_url
    } else {
        match config.provider_type.default_endpoint() {
            Some(url) => Some(String::from_str(url)),
            None => None,
        }
    };
    if remote && endpoint.is_none() {
        return Err(ConfigFault::NoEndpoint.into_error());
    }
    if remote && config.provider_type.requires_authentication() && !is_usable(&config.api_key) {
        return Err(ConfigFault::NoCredential.into_error());
    }
    proof {
        lemma_resolution_consistent(config@);
    }
    let resolved = ResolvedConfiguration {
        provider_type: config.provider_type,
        model_name: config.model_name,
        deployment,
        endpoint,
        api_key: config.api_key,
        headers: config.headers,
        parameters: config.parameters,
        timeout_seconds: config.timeout_seconds,
        max_retries: config.max_retries,
    };
    assert(resolved@ == config@.resolution()->Ok_0);
    Ok(resolved)
}

/// Whatever resolution accepts is consistent.
pub proof fn lemma_resolution_consistent(c: ConfigView)
    ensures
        c.resolution() matches Ok(v) ==> v.consistent(),
{
    lemma_default_endpoint_nonempty(c.provider_type);
}

/// In `Auto` mode a local runner resolves to `Local` and every other kind
/// that resolves at all resolves to `Remote`.
pub proof fn lemma_auto_mode(c: ConfigView)
    requires
        c.deployment == DeploymentMode::Auto,
    ensures
        c.resolution() matches Ok(v) ==> v.deployment == (if c.provider_type.local_runner() {
            DeploymentMode::Local
        } else {
            DeploymentMode::Remote
        }),
{
}

/// A remote hosted vendor without a usable credential is rejected, also
/// when its mode is `Auto`.
pub proof fn lemma_hosted_needs_credential(c: ConfigView)
    requires
        c.provider_type.hosted(),
        c.deployment != DeploymentMode::Local,
        !usable(c.api_key),
    ensures
        c.resolution() is Err,
{
}

/// Resolution is a function of what the configuration holds: two
/// configurations with the same values have the same outcome, whenever
/// and however often they are resolved.
pub proof fn lemma_resolve_deterministic(
    a: LLMProviderConfig,
    b: LLMProviderConfig,
    ra: Result<ResolvedConfiguration, LLMError>,
    rb: Result<ResolvedConfiguration, LLMError>,
)
    requires
        a@ == b@,
        resolves_to(a@, ra),
        resolves_to(b@, rb),
    ensures
        same_outcome(ra, rb),
{
}

/// Resolving the description of a resolved configuration gives the same
/// resolved configuration.
pub proof fn lemma_resolve_idempotent(v: ResolvedView)
    requires
        v.consistent(),
    ensures
        v.as_config().resolution() == Ok::<ResolvedView, ConfigFault>(v),
{
    let c = v.as_config();
    assert(c.mode() == v.deployment);
    assert(c.endpoint() == v.endpoint);
    assert(c.fault() is None);
}

} // verus!
