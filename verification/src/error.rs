//! The errors of this library.
use vstd::prelude::*;

use crate::numeral::{decimal, decimal_of};
use crate::text::{starts_with, text_starts_with};

verus! {

/// `std::io::Error`, carried as it is.
#[verifier::external_type_specification]
#[verifier::external_body]
pub struct ExIoError(std::io::Error);

/// `reqwest::Error`, carried as it is.
#[verifier::external_type_specification]
#[verifier::external_body]
pub struct ExHttpError(reqwest::Error);

/// `serde_json::Error`, carried as it is.
#[verifier::external_type_specification]
#[verifier::external_body]
pub struct ExSerdeError(serde_json::Error);

/// `toml::de::Error`, carried as it is.
#[verifier::external_type_specification]
#[verifier::external_body]
pub struct ExTomlError(toml::de::Error);

/// Everything that can go wrong during a review.
#[derive(Debug)]
pub enum AgentError {
    /// A missing or invalid setting. Permanent.
    Config(String),
    /// An answer of the GitHub API that is no success.
    GitHub(String),
    /// An answer of the AI API that is no success.
    Ai(String),
    /// A diff that cannot be read.
    Diff(String),
    /// More tokens than the budget allows.
    TokenBudget { used: usize, limit: usize },
    /// An operation that took longer than so many seconds. Transient.
    Timeout(u64),
    /// An I/O error.
    Io(std::io::Error),
    /// No data on standard input in time.
    StdinTimeout,
    /// A failed HTTP exchange. Transient.
    Http(reqwest::Error),
    /// JSON that cannot be read or written.
    Serde(serde_json::Error),
    /// TOML that cannot be read.
    Toml(toml::de::Error),
    /// An operation on a Git repository that failed.
    Git(String),
}

/// A result whose error is an [`AgentError`].
pub type Result<T> = std::result::Result<T, AgentError>;

impl AgentError {
    /// The words in front of the details of an error.
    pub open spec fn heading(self) -> Seq<char> {
        match self {
            AgentError::Config(_) => "Config error: "@,
            AgentError::GitHub(_) => "GitHub API error: "@,
            AgentError::Ai(_) => "AI API error: "@,
            AgentError::Diff(_) => "Diff parse error: "@,
            AgentError::TokenBudget { .. } => "Token budget exceeded: "@,
            AgentError::Timeout(_) => "Operation timed out after "@,
            AgentError::Io(_) => "I/O error: "@,
            AgentError::StdinTimeout => "Stdin timeout: no data received within 5 seconds"@,
            AgentError::Http(_) => "HTTP error: "@,
            AgentError::Serde(_) => "Serialization error: "@,
            AgentError::Toml(_) => "TOML parse error: "@,
            AgentError::Git(_) => "Git error: "@,
        }
    }

    /// The details of an error that does not come from elsewhere.
    pub open spec fn details(self) -> Option<Seq<char>> {
        match self {
            AgentError::Config(m) => Some(m@),
            AgentError::GitHub(m) => Some(m@),
            AgentError::Ai(m) => Some(m@),
            AgentError::Diff(m) => Some(m@),
            AgentError::Git(m) => Some(m@),
            AgentError::TokenBudget { used, limit } => Some(
                decimal(used as nat) + " > "@ + decimal(limit as nat),
            ),
            AgentError::Timeout(secs) => Some(decimal(secs as nat) + "s"@),
            AgentError::StdinTimeout => Some(""@),
            _ => None,
        }
    }

    /// The error in words: a heading and the details. The details of an I/O,
    /// HTTP, JSON or TOML error are its own words.
    pub fn message(&self) -> (r: String)
        ensures
            starts_with(r@, self.heading()),
            self.details() matches Some(d) ==> r@ == self.heading() + d,
    {
        let (heading, details) = match self {
            AgentError::Config(m) => ("Config error: ", m.clone()),
            AgentError::GitHub(m) => ("GitHub API error: ", m.clone()),
            AgentError::Ai(m) => ("AI API error: ", m.clone()),
            AgentError::Diff(m) => ("Diff parse error: ", m.clone()),
            AgentError::TokenBudget { used, limit } => {
                let mut d = decimal_of(*used as u64);
                d.push_str(" > ");
                d.push_str(decimal_of(*limit as u64).as_str());
                ("Token budget exceeded: ", d)
            },
            AgentError::Timeout(secs) => {
                let mut d = decimal_of(*secs);
                d.push_str("s");
                ("Operation timed out after ", d)
            },
            AgentError::Io(e) => ("I/O error: ", e.to_string()),
            AgentError::StdinTimeout => (
                "Stdin timeout: no data received within 5 seconds",
                "".to_owned(),
            ),
            AgentError::Http(e) => ("HTTP error: ", e.to_string()),
            AgentError::Serde(e) => ("Serialization error: ", e.to_string()),
            AgentError::Toml(e) => ("TOML parse error: ", e.to_string()),
            AgentError::Git(m) => ("Git error: ", m.clone()),
        };
        let mut out = heading.to_owned();
        out.push_str(details.as_str());
        assert(out@.subrange(0, heading@.len() as int) =~= heading@);
        out
    }

    /// The errors after which a second attempt may succeed: rate limits and
    /// server errors, by the words that the API clients report them with, and
    /// timeouts and failed HTTP exchanges.
    pub open spec fn transient(self) -> bool {
        match self {
            AgentError::GitHub(m) => {
                ||| starts_with(m@, "GitHub API transient error"@)
                ||| starts_with(m@, "GitHub API rate limit exceeded"@)
                ||| starts_with(m@, "GitHub API error (5"@)
                ||| starts_with(m@, "GitHub API error (429)"@)
            },
            AgentError::Ai(m) => {
                ||| starts_with(m@, "AI API rate limit exceeded (429)"@)
                ||| starts_with(m@, "AI API server error (5"@)
            },
            AgentError::Timeout(_) => true,
            AgentError::Http(_) => true,
            _ => false,
        }
    }

    /// Whether a second attempt may succeed.
    pub fn is_transient(&self) -> (r: bool)
        ensures
            r == self.transient(),
    {
        match self {
            AgentError::GitHub(m) => {
                text_starts_with(m.as_str(), "GitHub API transient error") || text_starts_with(
                    m.as_str(),
                    "GitHub API rate limit exceeded",
                ) || text_starts_with(m.as_str(), "GitHub API error (5") || text_starts_with(
                    m.as_str(),
                    "GitHub API error (429)",
                )
            },
            AgentError::Ai(m) => {
                text_starts_with(m.as_str(), "AI API rate limit exceeded (429)")
                    || text_starts_with(m.as_str(), "AI API server error (5")
            },
            AgentError::Timeout(_) => true,
            AgentError::Http(_) => true,
            _ => false,
        }
    }
}

impl From<std::io::Error> for AgentError {
    fn from(e: std::io::Error) -> (r: Self) {
        AgentError::Io(e)
    }
}

impl vstd::std_specs::convert::FromSpecImpl<std::io::Error> for AgentError {
    open spec fn obeys_from_spec() -> bool {
        true
    }

    open spec fn from_spec(e: std::io::Error) -> Self {
        AgentError::Io(e)
    }
}

impl From<reqwest::Error> for AgentError {
    fn from(e: reqwest::Error) -> (r: Self) {
        AgentError::Http(e)
    }
}

impl vstd::std_specs::convert::FromSpecImpl<reqwest::Error> for AgentError {
    open spec fn obeys_from_spec() -> bool {
        true
    }

    open spec fn from_spec(e: reqwest::Error) -> Self {
        AgentError::Http(e)
    }
}

impl From<serde_json::Error> for AgentError {
    fn from(e: serde_json::Error) -> (r: Self) {
        AgentError::Serde(e)
    }
}

impl vstd::std_specs::convert::FromSpecImpl<serde_json::Error> for AgentError {
    open spec fn obeys_from_spec() -> bool {
        true
    }

    open spec fn from_spec(e: serde_json::Error) -> Self {
        AgentError::Serde(e)
    }
}

impl From<toml::de::Error> for AgentError {
    fn from(e: toml::de::Error) -> (r: Self) {
        AgentError::Toml(e)
    }
}

impl vstd::std_specs::convert::FromSpecImpl<toml::de::Error> for AgentError {
    open spec fn obeys_from_spec() -> bool {
        true
    }

    open spec fn from_spec(e: toml::de::Error) -> Self {
        AgentError::Toml(e)
    }
}

/// An error says what failed and why: the words of its kind, and then its own.
pub proof fn errors_say_what_failed_and_why(m: String, used: usize, limit: usize, secs: u64)
    ensures
        AgentError::Config(m).heading() == "Config error: "@,
        AgentError::GitHub(m).heading() == "GitHub API error: "@,
        AgentError::Ai(m).heading() == "AI API error: "@,
        AgentError::Diff(m).heading() == "Diff parse error: "@,
        AgentError::Git(m).heading() == "Git error: "@,
        AgentError::Config(m).details() == Some(m@),
        AgentError::GitHub(m).details() == Some(m@),
        AgentError::Ai(m).details() == Some(m@),
        AgentError::Diff(m).details() == Some(m@),
        AgentError::Git(m).details() == Some(m@),
        (AgentError::TokenBudget { used, limit }).details() == Some(
            decimal(used as nat) + " > "@ + decimal(limit as nat),
        ),
        AgentError::Timeout(secs).details() == Some(decimal(secs as nat) + "s"@),
{
}

/// What is wrong with the settings, a diff or a repository stays wrong, while what took
/// too long or was not reached may succeed the next time.
pub proof fn lasting_errors_are_not_transient(m: String, secs: u64)
    ensures
        !AgentError::Config(m).transient(),
        !AgentError::Diff(m).transient(),
        !AgentError::Git(m).transient(),
        !AgentError::StdinTimeout.transient(),
        AgentError::Timeout(secs).transient(),
{
}

} // verus!
