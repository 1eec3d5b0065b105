//! Agent defaults, provider protocol types and availability, and the
//! approval interaction hook.

use vstd::prelude::*;
use crate::auth::find_char;
use crate::text::{chars_of, str_eq, string_of, trim, trimmed};

verus! {

/// Default agent settings: only the model reference, `provider/model` or a
/// model profile id.
#[derive(Debug, Clone)]
pub struct AgentDefaults {
    pub model: Option<String>,
}

impl AgentDefaults {
    /// The default sampling temperature, 0.7, as the bits of an `f32`
    /// (`f32::from_bits` gives the value).
    pub const DEFAULT_TEMPERATURE_BITS: u32 = 0x3F33_3333;

    /// The default maximum number of tokens to generate.
    pub const DEFAULT_MAX_TOKENS: u32 = 4096;

    /// The default maximum number of tool-call iterations.
    pub const DEFAULT_MAX_ITERATIONS: u32 = 20;

    /// The default memory window, in messages.
    pub const DEFAULT_MEMORY_WINDOW: usize = 50;

    /// Streaming is on by default.
    pub const DEFAULT_STREAMING: bool = true;

    /// Thinking mode is off by default.
    pub const DEFAULT_THINKING_ENABLED: bool = false;

    /// No model chosen.
    pub fn default() -> (r: Self)
        ensures
            r.model is None,
    {
        AgentDefaults { model: None }
    }
}

/// Whether the `f32` with these bits lies in `0.0..=2.0`: a non-negative
/// float orders as its bits do, `2.0` has the bits `0x4000_0000`, and of the
/// floats with the sign bit set only `-0.0` equals `0.0`; NaNs lie nowhere.
pub open spec fn temperature_in_range(bits: u32) -> bool {
    bits <= 0x4000_0000 || bits == 0x8000_0000
}

/// A named model configuration that can be switched to at runtime.
/// `temperature_bits` holds `f32::to_bits` of the temperature override.
#[derive(Debug)]
pub struct ModelProfile {
    pub provider: String,
    pub model: String,
    pub description: Option<String>,
    pub capabilities: Vec<String>,
    pub temperature_bits: Option<u32>,
    pub thinking_enabled: Option<bool>,
    pub max_tokens: Option<u32>,
}

/// Why a model profile is refused.
#[derive(Debug, PartialEq, Eq)]
pub enum ProfileError {
    /// The provider is blank.
    EmptyProvider,
    /// The model is blank.
    EmptyModel,
    /// The temperature (as `f32` bits) lies outside `0.0..=2.0`.
    TemperatureOutOfRange(u32),
    /// `max_tokens` is zero.
    ZeroMaxTokens,
}

impl ModelProfile {
    /// Check the profile: the first failing check in the order provider,
    /// model, temperature, `max_tokens` is the error.
    pub fn validate(&self) -> (r: Result<(), ProfileError>)
        ensures
            r == if trimmed(self.provider@).len() == 0 {
                Err::<(), ProfileError>(ProfileError::EmptyProvider)
            } else if trimmed(self.model@).len() == 0 {
                Err(ProfileError::EmptyModel)
            } else if self.temperature_bits matches Some(t) && !temperature_in_range(t) {
                Err(ProfileError::TemperatureOutOfRange(self.temperature_bits.unwrap()))
            } else if self.max_tokens == Some(0u32) {
                Err(ProfileError::ZeroMaxTokens)
            } else {
                Ok(())
            },
    {
        if trim(self.provider.as_str()).as_str().unicode_len() == 0 {
            return Err(ProfileError::EmptyProvider);
        }
        if trim(self.model.as_str()).as_str().unicode_len() == 0 {
            return Err(ProfileError::EmptyModel);
        }
        if let Some(t) = self.temperature_bits {
            if !(t <= 0x4000_0000 || t == 0x8000_0000) {
                return Err(ProfileError::TemperatureOutOfRange(t));
            }
        }
        if self.max_tokens == Some(0u32) {
            return Err(ProfileError::ZeroMaxTokens);
        }
        Ok(())
    }
}

impl ProfileError {
    /// The displayed message; the out-of-range temperature is shown by
    /// `temperature_text`, the `f32`'s own rendering.
    pub fn message(&self, temperature_text: &str) -> (r: String)
        ensures
            r@ == match self {
                ProfileError::EmptyProvider => "provider cannot be empty"@,
                ProfileError::EmptyModel => "model cannot be empty"@,
                ProfileError::TemperatureOutOfRange(_) => "temperature must be between 0.0 and 2.0, got "@
                    + temperature_text@,
                ProfileError::ZeroMaxTokens => "max_tokens must be greater than 0"@,
            },
    {
        match self {
            ProfileError::EmptyProvider => "provider cannot be empty".to_owned(),
            ProfileError::EmptyModel => "model cannot be empty".to_owned(),
            ProfileError::TemperatureOutOfRange(_) => {
                let mut s = "temperature must be between 0.0 and 2.0, got ".to_owned();
                s.append(temperature_text);
                s
            },
            ProfileError::ZeroMaxTokens => "max_tokens must be greater than 0".to_owned(),
        }
    }
}

/// The API protocol a provider speaks.
#[derive(Debug, Clone, Copy, PartialEq, Eq, Structural)]
pub enum ProviderType {
    /// OpenAI-compatible (most providers); the default.
    Openai,
    /// Anthropic's native API.
    Anthropic,
    /// Google Gemini's native API.
    Gemini,
}

impl Default for ProviderType {
    fn default() -> (r: Self)
        ensures
            r == ProviderType::Openai,
    {
        ProviderType::Openai
    }
}

/// The protocol's name as configuration files write it.
pub open spec fn provider_type_name(t: ProviderType) -> Seq<char> {
    match t {
        ProviderType::Openai => "openai"@,
        ProviderType::Anthropic => "anthropic"@,
        ProviderType::Gemini => "gemini"@,
    }
}

/// The protocol named `s`, if any.
pub open spec fn provider_type_named(s: Seq<char>) -> Option<ProviderType> {
    if s == "openai"@ {
        Some(ProviderType::Openai)
    } else if s == "anthropic"@ {
        Some(ProviderType::Anthropic)
    } else if s == "gemini"@ {
        Some(ProviderType::Gemini)
    } else {
        None
    }
}

impl ProviderType {
    /// The protocol's name (see [`provider_type_name`]).
    pub fn name(&self) -> (r: &'static str)
        ensures
            r@ == provider_type_name(*self),
    {
        match self {
            ProviderType::Openai => "openai",
            ProviderType::Anthropic => "anthropic",
            ProviderType::Gemini => "gemini",
        }
    }

    /// The protocol named `s` (see [`provider_type_named`]).
    pub fn from_name(s: &str) -> (r: Option<ProviderType>)
        ensures
            r == provider_type_named(s@),
    {
        if str_eq(s, "openai") {
            Some(ProviderType::Openai)
        } else if str_eq(s, "anthropic") {
            Some(ProviderType::Anthropic)
        } else if str_eq(s, "gemini") {
            Some(ProviderType::Gemini)
        } else {
            None
        }
    }
}

/// Reading a protocol's name back gives the protocol.
pub proof fn lemma_provider_type_name_roundtrip(t: ProviderType)
    ensures
        provider_type_named(provider_type_name(t)) == Some(t),
{
    reveal_strlit("openai");
    reveal_strlit("anthropic");
    reveal_strlit("gemini");
    assert("openai"@[0] != "gemini"@[0]);
    assert("openai"@.len() != "anthropic"@.len());
    assert("gemini"@.len() != "anthropic"@.len());
}

/// Local providers, which need no API key.
pub open spec fn is_local_provider(name: Seq<char>) -> bool {
    name == "ollama"@ || name == "litellm"@
}

/// Whether a provider can be used: a local one always; a remote one only
/// with an API key that is not blank.
pub fn provider_available(name: &str, api_key: Option<&str>) -> (r: bool)
    ensures
        r == (is_local_provider(name@) || match api_key {
            Some(k) => trimmed(k@).len() > 0,
            None => false,
        }),
{
    if str_eq(name, "ollama") || str_eq(name, "litellm") {
        return true;
    }
    match api_key {
        Some(k) => !trim(k).as_str().is_empty(),
        None => false,
    }
}

/// Whether a provider goes through the environment's proxy: yes unless
/// explicitly turned off.
pub fn proxy_enabled(setting: Option<bool>) -> (r: bool)
    ensures
        r == match setting {
            Some(b) => b,
            None => true,
        },
{
    match setting {
        Some(b) => b,
        None => true,
    }
}

/// The default provider named by a default model: the part before the
/// first `/` (the whole reference when it has none).
pub open spec fn default_provider_name(model: Seq<char>) -> Seq<char> {
    model.subrange(0, find_char(model, '/', 0, model.len() as int))
}

/// The default provider of the agent defaults' model, if a model is set.
pub fn default_provider(model: Option<&str>) -> (r: Option<String>)
    ensures
        match model {
            Some(m) => r matches Some(p) && p@ == default_provider_name(m@),
            None => r is None,
        },
{
    match model {
        Some(m) => {
            let cs = chars_of(m);
            let mut i: usize = 0;
            while i < cs.len() && cs[i] != '/'
                invariant
                    cs@ == m@,
                    0 <= i <= cs.len(),
                    find_char(m@, '/', i as int, m@.len() as int) == find_char(
                        m@,
                        '/',
                        0,
                        m@.len() as int,
                    ),
                decreases cs.len() - i,
            {
                i = i + 1;
            }
            Some(string_of(&cs, 0, i))
        },
        None => None,
    }
}

/// The permission an approval grants.
#[derive(Debug, Clone, Copy, PartialEq, Eq, Structural)]
pub enum PermissionLevel {
    Allowed,
    Denied,
}

/// How the host asks a user to approve a sensitive operation. Hosts
/// implement it (a CLI prompt, a web UI round-trip); two fixed answers are
/// provided.
pub trait ApprovalInteraction<Request> {
    /// The permission granted for `request`.
    fn confirm(&self, request: &Request) -> PermissionLevel;
}

/// Denies every request.
pub struct DenyAllInteraction;

impl<Request> ApprovalInteraction<Request> for DenyAllInteraction {
    fn confirm(&self, request: &Request) -> (r: PermissionLevel)
        ensures
            r == PermissionLevel::Denied,
    {
        PermissionLevel::Denied
    }
}

/// Allows every request.
pub struct AllowAllInteraction;

impl<Request> ApprovalInteraction<Request> for AllowAllInteraction {
    fn confirm(&self, request: &Request) -> (r: PermissionLevel)
        ensures
            r == PermissionLevel::Allowed,
    {
        PermissionLevel::Allowed
    }
}

} // verus!
