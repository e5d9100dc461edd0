//! The agent's error type.

use vstd::prelude::*;

use crate::text;

verus! {

/// Everything that can go wrong in the agent.
pub enum AgentError {
    /// The model's API answered with a status other than success.
    Api { status: u16, body: String },
    /// The connection failed.
    Network(String),
    /// The event stream broke or carried an error event.
    Stream(String),
    /// An operation took longer than its deadline.
    Timeout { seconds: u64 },
    /// The reply could not be understood.
    InvalidResponse(String),
    /// No tool of that name is registered.
    ToolNotFound { name: String, available: String },
    /// The tool may not be used by this kind of agent.
    ToolRejected { name: String, reason: String },
    /// A hook denied the call.
    ToolDenied { name: String, reason: String },
    /// The tool ran and failed.
    ToolExecution { name: String, reason: String },
    /// A path leads out of the workspace.
    PathTraversal { path: String },
    /// A file operation failed.
    FileSystem(String),
    /// An input was malformed.
    Validation(String),
    /// Anything else.
    Other(String),
}

/// The mathematical content of an [`AgentError`].
#[verifier::ext_equal]
pub enum ErrorView {
    Api { status: u16, body: Seq<char> },
    Network(Seq<char>),
    Stream(Seq<char>),
    Timeout { seconds: u64 },
    InvalidResponse(Seq<char>),
    ToolNotFound { name: Seq<char>, available: Seq<char> },
    ToolRejected { name: Seq<char>, reason: Seq<char> },
    ToolDenied { name: Seq<char>, reason: Seq<char> },
    ToolExecution { name: Seq<char>, reason: Seq<char> },
    PathTraversal { path: Seq<char> },
    FileSystem(Seq<char>),
    Validation(Seq<char>),
    Other(Seq<char>),
}

impl View for AgentError {
    type V = ErrorView;

    open spec fn view(&self) -> ErrorView {
        match *self {
            AgentError::Api { status, body } => ErrorView::Api { status, body: body@ },
            AgentError::Network(m) => ErrorView::Network(m@),
            AgentError::Stream(m) => ErrorView::Stream(m@),
            AgentError::Timeout { seconds } => ErrorView::Timeout { seconds },
            AgentError::InvalidResponse(m) => ErrorView::InvalidResponse(m@),
            AgentError::ToolNotFound { name, available } => ErrorView::ToolNotFound {
                name: name@,
                available: available@,
            },
            AgentError::ToolRejected { name, reason } => ErrorView::ToolRejected {
                name: name@,
                reason: reason@,
            },
            AgentError::ToolDenied { name, reason } => ErrorView::ToolDenied {
                name: name@,
                reason: reason@,
            },
            AgentError::ToolExecution { name, reason } => ErrorView::ToolExecution {
                name: name@,
                reason: reason@,
            },
            AgentError::PathTraversal { path } => ErrorView::PathTraversal { path: path@ },
            AgentError::FileSystem(m) => ErrorView::FileSystem(m@),
            AgentError::Validation(m) => ErrorView::Validation(m@),
            AgentError::Other(m) => ErrorView::Other(m@),
        }
    }
}

/// One of the phrases by which providers say that the context is too long.
pub open spec fn names_context_limit(lower: Seq<char>) -> bool {
    ||| text::has(lower, "prompt_too_long"@)
    ||| text::has(lower, "too many tokens"@)
    ||| text::has(lower, "request_too_large"@)
}

impl ErrorView {
    /// The message shown to the user.
    pub open spec fn shown(self) -> Seq<char> {
        match self {
            ErrorView::Api { status, body } => "API error (HTTP "@ + text::decimal(status as nat)
                + "): "@ + body,
            ErrorView::Network(m) => "Network error: "@ + m,
            ErrorView::Stream(m) => "Stream error: "@ + m,
            ErrorView::Timeout { seconds } => "Operation timed out after "@ + text::decimal(
                seconds as nat,
            ) + "s"@,
            ErrorView::InvalidResponse(m) => "Invalid response: "@ + m,
            ErrorView::ToolNotFound { name, available } => "Tool '"@ + name
                + "' not found. Available tools: "@ + available,
            ErrorView::ToolRejected { name, reason } => "Tool '"@ + name + "' rejected: "@
                + reason,
            ErrorView::ToolDenied { name, reason } => "Tool '"@ + name + "' denied: "@ + reason,
            ErrorView::ToolExecution { name, reason } => "Tool '"@ + name
                + "' execution failed: "@ + reason,
            ErrorView::PathTraversal { path } => "Path '"@ + path + "' escapes workspace"@,
            ErrorView::FileSystem(m) => "File system error: "@ + m,
            ErrorView::Validation(m) => "Validation error: "@ + m,
            ErrorView::Other(m) => m,
        }
    }

    /// The text in which a provider would say that the context is too long.
    pub open spec fn provider_text(self) -> Option<Seq<char>> {
        match self {
            ErrorView::Api { body, .. } => Some(body),
            ErrorView::Stream(m) => Some(m),
            ErrorView::Other(m) => Some(m),
            _ => None,
        }
    }

    /// The error says that the prompt exceeds the model's context.
    pub open spec fn prompt_too_long(self) -> bool {
        match self.provider_text() {
            Some(t) => names_context_limit(text::lowered(t)),
            None => false,
        }
    }
}

impl AgentError {
    /// The message shown to the user.
    pub fn to_string(&self) -> (r: String)
        ensures
            r@ == self@.shown(),
    {
        match self {
            AgentError::Api { status, body } => "API error (HTTP ".to_string().concat(
                text::number_text(*status as u64).as_str(),
            ).concat("): ").concat(body.as_str()),
            AgentError::Network(m) => "Network error: ".to_string().concat(m.as_str()),
            AgentError::Stream(m) => "Stream error: ".to_string().concat(m.as_str()),
            AgentError::Timeout { seconds } => "Operation timed out after ".to_string().concat(
                text::number_text(*seconds).as_str(),
            ).concat("s"),
            AgentError::InvalidResponse(m) => "Invalid response: ".to_string().concat(m.as_str()),
            AgentError::ToolNotFound { name, available } => "Tool '".to_string().concat(
                name.as_str(),
            ).concat("' not found. Available tools: ").concat(available.as_str()),
            AgentError::ToolRejected { name, reason } => "Tool '".to_string().concat(
                name.as_str(),
            ).concat("' rejected: ").concat(reason.as_str()),
            AgentError::ToolDenied { name, reason } => "Tool '".to_string().concat(
                name.as_str(),
            ).concat("' denied: ").concat(reason.as_str()),
            AgentError::ToolExecution { name, reason } => "Tool '".to_string().concat(
                name.as_str(),
            ).concat("' execution failed: ").concat(reason.as_str()),
            AgentError::PathTraversal { path } => "Path '".to_string().concat(path.as_str()).concat(
                "' escapes workspace",
            ),
            AgentError::FileSystem(m) => "File system error: ".to_string().concat(m.as_str()),
            AgentError::Validation(m) => "Validation error: ".to_string().concat(m.as_str()),
            AgentError::Other(m) => m.clone(),
        }
    }

    /// Whether the error says that the prompt exceeds the model's context. The agent
    /// compacts its history and tries again on such an error.
    pub fn is_prompt_too_long(&self) -> (r: bool)
        ensures
            r == self@.prompt_too_long(),
    {
        let m: &String = match self {
            AgentError::Api { body, .. } => body,
            AgentError::Stream(m) => m,
            AgentError::Other(m) => m,
            _ => return false,
        };
        let lower = text::lowercase(m.as_str());
        mentions_context_limit(lower.as_str())
    }
}

/// The errors of `std::io`, passed through as they are.
#[verifier::external_type_specification]
#[verifier::external_body]
pub struct ExIoError(std::io::Error);

impl vstd::std_specs::convert::FromSpecImpl<std::io::Error> for AgentError {
    open spec fn obeys_from_spec() -> bool {
        false
    }

    open spec fn from_spec(e: std::io::Error) -> Self {
        arbitrary()
    }
}

impl From<std::io::Error> for AgentError {
    /// An I/O error is a file system error with the same message.
    fn from(e: std::io::Error) -> (r: Self)
        ensures
            r is FileSystem,
            vstd::string::to_string_from_display_ensures(&e, r->FileSystem_0),
    {
        AgentError::FileSystem(e.to_string())
    }
}

/// The errors of `reqwest`, passed through as they are.
#[verifier::external_type_specification]
#[verifier::external_body]
pub struct ExRequestError(reqwest::Error);

impl vstd::std_specs::convert::FromSpecImpl<reqwest::Error> for AgentError {
    open spec fn obeys_from_spec() -> bool {
        false
    }

    open spec fn from_spec(e: reqwest::Error) -> Self {
        arbitrary()
    }
}

impl From<reqwest::Error> for AgentError {
    /// An error of the connection is a network error with the same message.
    fn from(e: reqwest::Error) -> (r: Self)
        ensures
            r is Network,
            vstd::string::to_string_from_display_ensures(&e, r->Network_0),
    {
        AgentError::Network(e.to_string())
    }
}

/// The errors of `serde_json`, passed through as they are.
#[verifier::external_type_specification]
#[verifier::external_body]
pub struct ExJsonError(serde_json::Error);

impl vstd::std_specs::convert::FromSpecImpl<serde_json::Error> for AgentError {
    open spec fn obeys_from_spec() -> bool {
        false
    }

    open spec fn from_spec(e: serde_json::Error) -> Self {
        arbitrary()
    }
}

impl From<serde_json::Error> for AgentError {
    /// A JSON error is a validation error that quotes it.
    fn from(e: serde_json::Error) -> (r: Self)
        ensures
            r is Validation,
            exists|m: String| #[trigger]
                vstd::string::to_string_from_display_ensures(&e, m) && r->Validation_0@
                    == "JSON error: "@ + m@,
    {
        let m = e.to_string();
        AgentError::Validation("JSON error: ".to_string().concat(m.as_str()))
    }
}

/// Whether a lowercase text holds one of the phrases for a context that is too long.
pub fn mentions_context_limit(lower: &str) -> (r: bool)
    ensures
        r == names_context_limit(lower@),
{
    text::contains(lower, "prompt_too_long") || text::contains(lower, "too many tokens")
        || text::contains(lower, "request_too_large")
}

} // verus!
