//! Error types of the agent engine, channels and pipeline, each with the
//! message it displays.

use vstd::prelude::*;
use vstd::std_specs::convert::FromSpecImpl;
use crate::decimal::{dec, u64_to_decimal};

verus! {

/// Errors from LLM providers.
#[derive(Debug)]
pub enum ProviderError {
    AuthError(String),
    RateLimitError(String),
    InvalidRequest(String),
    ModelNotFound(String),
    NetworkError(String),
    ApiError { status_code: u16, message: String },
    ParseError(String),
    Other(String),
    /// An underlying error, shown as its own message.
    Internal(String),
}

impl ProviderError {
    /// The displayed message.
    pub open spec fn text(&self) -> Seq<char> {
        match self {
            ProviderError::AuthError(m) => "Authentication failed: "@ + m@,
            ProviderError::RateLimitError(m) => "Rate limit exceeded: "@ + m@,
            ProviderError::InvalidRequest(m) => "Invalid request: "@ + m@,
            ProviderError::ModelNotFound(m) => "Model not found: "@ + m@,
            ProviderError::NetworkError(m) => "Network error: "@ + m@,
            ProviderError::ApiError { status_code, message } => "API error (status "@ + dec(
                *status_code as nat,
            ) + "): "@ + message@,
            ProviderError::ParseError(m) => "Failed to parse response: "@ + m@,
            ProviderError::Other(m) => m@,
            ProviderError::Internal(m) => m@,
        }
    }

    /// The displayed message.
    pub fn message(&self) -> (r: String)
        ensures
            r@ == self.text(),
    {
        match self {
            ProviderError::AuthError(m) => prefixed("Authentication failed: ", m.as_str()),
            ProviderError::RateLimitError(m) => prefixed("Rate limit exceeded: ", m.as_str()),
            ProviderError::InvalidRequest(m) => prefixed("Invalid request: ", m.as_str()),
            ProviderError::ModelNotFound(m) => prefixed("Model not found: ", m.as_str()),
            ProviderError::NetworkError(m) => prefixed("Network error: ", m.as_str()),
            ProviderError::ApiError { status_code, message } => {
                let mut s = "API error (status ".to_owned();
                s.append(u64_to_decimal(*status_code as u64).as_str());
                s.append("): ");
                s.append(message.as_str());
                s
            },
            ProviderError::ParseError(m) => prefixed("Failed to parse response: ", m.as_str()),
            ProviderError::Other(m) => m.clone(),
            ProviderError::Internal(m) => m.clone(),
        }
    }
}

fn prefixed(p: &str, m: &str) -> (r: String)
    ensures
        r@ == p@ + m@,
{
    let mut s = p.to_owned();
    s.append(m);
    s
}

/// Errors during agent processing.
#[derive(Debug)]
pub enum AgentError {
    ProviderError(ProviderError),
    ToolError(String),
    SessionError(String),
    ContextError(String),
    ConfigError(String),
    /// An I/O failure, by its message.
    IoError(String),
    HookFailed { name: String, message: String },
    AbortedByHook(String),
    Other(String),
    /// An underlying error, shown as its own message.
    Internal(String),
}

impl AgentError {
    /// The displayed message.
    pub open spec fn text(&self) -> Seq<char> {
        match self {
            AgentError::ProviderError(e) => "LLM provider error: "@ + e.text(),
            AgentError::ToolError(m) => "Tool execution error: "@ + m@,
            AgentError::SessionError(m) => "Session error: "@ + m@,
            AgentError::ContextError(m) => "Context preparation error: "@ + m@,
            AgentError::ConfigError(m) => "Configuration error: "@ + m@,
            AgentError::IoError(m) => "I/O error: "@ + m@,
            AgentError::HookFailed { name, message } => "Hook '"@ + name@ + "' failed: "@ + message@,
            AgentError::AbortedByHook(m) => "Request aborted by hook: "@ + m@,
            AgentError::Other(m) => m@,
            AgentError::Internal(m) => m@,
        }
    }

    /// The displayed message.
    pub fn message(&self) -> (r: String)
        ensures
            r@ == self.text(),
    {
        match self {
            AgentError::ProviderError(e) => prefixed("LLM provider error: ", e.message().as_str()),
            AgentError::ToolError(m) => prefixed("Tool execution error: ", m.as_str()),
            AgentError::SessionError(m) => prefixed("Session error: ", m.as_str()),
            AgentError::ContextError(m) => prefixed("Context preparation error: ", m.as_str()),
            AgentError::ConfigError(m) => prefixed("Configuration error: ", m.as_str()),
            AgentError::IoError(m) => prefixed("I/O error: ", m.as_str()),
            AgentError::HookFailed { name, message } => {
                let mut s = "Hook '".to_owned();
                s.append(name.as_str());
                s.append("' failed: ");
                s.append(message.as_str());
                s
            },
            AgentError::AbortedByHook(m) => prefixed("Request aborted by hook: ", m.as_str()),
            AgentError::Other(m) => m.clone(),
            AgentError::Internal(m) => m.clone(),
        }
    }
}

impl From<ProviderError> for AgentError {
    fn from(e: ProviderError) -> (r: Self) {
        AgentError::ProviderError(e)
    }
}

impl FromSpecImpl<ProviderError> for AgentError {
    open spec fn obeys_from_spec() -> bool {
        true
    }

    open spec fn from_spec(e: ProviderError) -> Self {
        AgentError::ProviderError(e)
    }
}

/// Errors from channel operations.
#[derive(Debug)]
pub enum ChannelError {
    NotConfigured(String),
    AuthError(String),
    SendError(String),
    ReceiveError(String),
    InvalidFormat(String),
    /// An underlying error, shown as its own message.
    Internal(String),
}

impl ChannelError {
    /// The displayed message.
    pub open spec fn text(&self) -> Seq<char> {
        match self {
            ChannelError::NotConfigured(c) => "Channel '"@ + c@ + "' not configured"@,
            ChannelError::AuthError(m) => "Channel authentication failed: "@ + m@,
            ChannelError::SendError(m) => "Failed to send message: "@ + m@,
            ChannelError::ReceiveError(m) => "Failed to receive message: "@ + m@,
            ChannelError::InvalidFormat(m) => "Invalid message format: "@ + m@,
            ChannelError::Internal(m) => m@,
        }
    }

    /// The displayed message.
    pub fn message(&self) -> (r: String)
        ensures
            r@ == self.text(),
    {
        match self {
            ChannelError::NotConfigured(c) => {
                let mut s = "Channel '".to_owned();
                s.append(c.as_str());
                s.append("' not configured");
                s
            },
            ChannelError::AuthError(m) => prefixed("Channel authentication failed: ", m.as_str()),
            ChannelError::SendError(m) => prefixed("Failed to send message: ", m.as_str()),
            ChannelError::ReceiveError(m) => prefixed("Failed to receive message: ", m.as_str()),
            ChannelError::InvalidFormat(m) => prefixed("Invalid message format: ", m.as_str()),
            ChannelError::Internal(m) => m.clone(),
        }
    }
}

/// Channel-specific configuration errors.
#[derive(Debug)]
pub enum ChannelConfigError {
    IncompleteEmailConfig,
    InvalidChannelConfig(String, String),
}

impl ChannelConfigError {
    /// The displayed message.
    pub open spec fn text(&self) -> Seq<char> {
        match self {
            ChannelConfigError::IncompleteEmailConfig => "Email channel requires either IMAP or SMTP configuration"@,
            ChannelConfigError::InvalidChannelConfig(c, m) => "Channel '"@ + c@
                + "' has invalid configuration: "@ + m@,
        }
    }

    /// The displayed message.
    pub fn message(&self) -> (r: String)
        ensures
            r@ == self.text(),
    {
        match self {
            ChannelConfigError::IncompleteEmailConfig => "Email channel requires either IMAP or SMTP configuration".to_owned(),
            ChannelConfigError::InvalidChannelConfig(c, m) => {
                let mut s = "Channel '".to_owned();
                s.append(c.as_str());
                s.append("' has invalid configuration: ");
                s.append(m.as_str());
                s
            },
        }
    }
}

/// Configuration validation errors.
#[derive(Debug)]
pub enum ConfigValidationError {
    /// A provider without its API key.
    ProviderNotAvailable(String),
    IncompleteEmailConfig,
    MissingEmailField(String),
    InvalidChannelConfig(String, String),
}

impl ConfigValidationError {
    /// The displayed message.
    pub open spec fn text(&self) -> Seq<char> {
        match self {
            ConfigValidationError::ProviderNotAvailable(p) => "Provider '"@ + p@
                + "' is not available (missing API key)"@,
            ConfigValidationError::IncompleteEmailConfig => "Email channel requires either IMAP or SMTP configuration (host, username, password, and from_address for SMTP)"@,
            ConfigValidationError::MissingEmailField(f) => "Email configuration missing required field: "@
                + f@,
            ConfigValidationError::InvalidChannelConfig(c, m) => "Channel '"@ + c@
                + "' has invalid configuration: "@ + m@,
        }
    }

    /// The displayed message.
    pub fn message(&self) -> (r: String)
        ensures
            r@ == self.text(),
    {
        match self {
            ConfigValidationError::ProviderNotAvailable(p) => {
                let mut s = "Provider '".to_owned();
                s.append(p.as_str());
                s.append("' is not available (missing API key)");
                s
            },
            ConfigValidationError::IncompleteEmailConfig => "Email channel requires either IMAP or SMTP configuration (host, username, password, and from_address for SMTP)".to_owned(),
            ConfigValidationError::MissingEmailField(f) => prefixed(
                "Email configuration missing required field: ",
                f.as_str(),
            ),
            ConfigValidationError::InvalidChannelConfig(c, m) => {
                let mut s = "Channel '".to_owned();
                s.append(c.as_str());
                s.append("' has invalid configuration: ");
                s.append(m.as_str());
                s
            },
        }
    }
}

impl From<ChannelConfigError> for ConfigValidationError {
    fn from(e: ChannelConfigError) -> (r: Self) {
        match e {
            ChannelConfigError::IncompleteEmailConfig => ConfigValidationError::IncompleteEmailConfig,
            ChannelConfigError::InvalidChannelConfig(c, m) => ConfigValidationError::InvalidChannelConfig(
                c,
                m,
            ),
        }
    }
}

impl FromSpecImpl<ChannelConfigError> for ConfigValidationError {
    open spec fn obeys_from_spec() -> bool {
        true
    }

    open spec fn from_spec(e: ChannelConfigError) -> Self {
        match e {
            ChannelConfigError::IncompleteEmailConfig => ConfigValidationError::IncompleteEmailConfig,
            ChannelConfigError::InvalidChannelConfig(c, m) => ConfigValidationError::InvalidChannelConfig(
                c,
                m,
            ),
        }
    }
}

/// Errors of the multi-agent pipeline.
#[derive(Debug)]
pub enum PipelineError {
    NotEnabled,
    TaskNotFound(String),
    InvalidTransition { from: String, to: String },
    PermissionDenied { caller: String, target: String },
    ReviewLimitExceeded(String, u32),
    StallDetected(String),
    StoreError(String),
}

impl PipelineError {
    /// The displayed message.
    pub open spec fn text(&self) -> Seq<char> {
        match self {
            PipelineError::NotEnabled => "Pipeline is not enabled"@,
            PipelineError::TaskNotFound(t) => "Pipeline task not found: "@ + t@,
            PipelineError::InvalidTransition { from, to } => "Invalid state transition from "@
                + from@ + " to "@ + to@,
            PipelineError::PermissionDenied { caller, target } => "Permission denied: role '"@
                + caller@ + "' cannot delegate to '"@ + target@ + "'"@,
            PipelineError::ReviewLimitExceeded(t, n) => "Review limit exceeded for task "@ + t@
                + " (max "@ + dec(*n as nat) + ")"@,
            PipelineError::StallDetected(t) => "Stall detected for task "@ + t@,
            PipelineError::StoreError(m) => "Pipeline store error: "@ + m@,
        }
    }

    /// The displayed message.
    pub fn message(&self) -> (r: String)
        ensures
            r@ == self.text(),
    {
        match self {
            PipelineError::NotEnabled => "Pipeline is not enabled".to_owned(),
            PipelineError::TaskNotFound(t) => prefixed("Pipeline task not found: ", t.as_str()),
            PipelineError::InvalidTransition { from, to } => {
                let mut s = "Invalid state transition from ".to_owned();
                s.append(from.as_str());
                s.append(" to ");
                s.append(to.as_str());
                s
            },
            PipelineError::PermissionDenied { caller, target } => {
                let mut s = "Permission denied: role '".to_owned();
                s.append(caller.as_str());
                s.append("' cannot delegate to '");
                s.append(target.as_str());
                s.append("'");
                s
            },
            PipelineError::ReviewLimitExceeded(t, n) => {
                let mut s = "Review limit exceeded for task ".to_owned();
                s.append(t.as_str());
                s.append(" (max ");
                s.append(u64_to_decimal(*n as u64).as_str());
                s.append(")");
                s
            },
            PipelineError::StallDetected(t) => prefixed("Stall detected for task ", t.as_str()),
            PipelineError::StoreError(m) => prefixed("Pipeline store error: ", m.as_str()),
        }
    }
}

} // verus!
