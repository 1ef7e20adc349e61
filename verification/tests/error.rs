use review_agent::error::{AgentError, Result};
use review_agent::retry::{retry_step, RetryStep, Service, MAX_RETRIES};

#[test]
fn config_error_message() {
    let err = AgentError::Config("missing GITHUB_TOKEN".into());
    assert_eq!(err.message(), "Config error: missing GITHUB_TOKEN");
}

#[test]
fn github_error_message() {
    let err = AgentError::GitHub("404 Not Found".into());
    assert_eq!(err.message(), "GitHub API error: 404 Not Found");
}

#[test]
fn ai_error_message() {
    let err = AgentError::Ai("rate limited".into());
    assert_eq!(err.message(), "AI API error: rate limited");
}

#[test]
fn token_budget_message() {
    let err = AgentError::TokenBudget {
        used: 50000,
        limit: 32000,
    };
    assert!(err.message().contains("50000"));
    assert!(err.message().contains("32000"));
    assert_eq!(err.message(), "Token budget exceeded: 50000 > 32000");
}

#[test]
fn timeout_message() {
    let err = AgentError::Timeout(90);
    assert_eq!(err.message(), "Operation timed out after 90s");
}

#[test]
fn io_error_conversion() {
    let io = std::io::Error::new(std::io::ErrorKind::NotFound, "file not found");
    let err: AgentError = io.into();
    assert!(matches!(err, AgentError::Io(_)));
    assert_eq!(err.message(), "I/O error: file not found");
}

#[test]
fn serde_error_conversion() {
    let serde = serde_json::from_str::<()>("invalid").unwrap_err();
    let err: AgentError = serde.into();
    assert!(matches!(err, AgentError::Serde(_)));
    assert!(err.message().starts_with("Serialization error: "));
}

#[test]
fn toml_error_conversion() {
    let toml_error = toml::from_str::<toml::Value>("= broken").unwrap_err();
    let err: AgentError = toml_error.into();
    assert!(matches!(err, AgentError::Toml(_)));
    assert!(err.message().starts_with("TOML parse error: "));
}

#[test]
fn result_type_alias_works() {
    fn returns_result() -> Result<String> {
        Ok("hello".into())
    }
    assert_eq!(returns_result().unwrap(), "hello");
}

#[test]
fn result_type_alias_err() {
    fn returns_err() -> Result<String> {
        Err(AgentError::Config("fail".into()))
    }
    assert!(returns_err().is_err());
}

#[test]
fn debug_format() {
    let err = AgentError::Config("test".into());
    let debug = format!("{:?}", err);
    assert!(debug.contains("Config"));
    assert!(debug.contains("test"));
}

#[test]
fn display_includes_variant_hint() {
    let err = AgentError::GitHub("forbidden".into());
    let s = err.message();
    assert!(s.contains("GitHub"));
    assert!(s.contains("forbidden"));
}

#[test]
fn other_variants_have_their_headings() {
    assert_eq!(AgentError::Diff("x".into()).message(), "Diff parse error: x");
    assert_eq!(AgentError::Git("x".into()).message(), "Git error: x");
    assert_eq!(
        AgentError::StdinTimeout.message(),
        "Stdin timeout: no data received within 5 seconds"
    );
}

#[test]
fn timeouts_are_transient_and_settings_are_not() {
    assert!(AgentError::Timeout(1).is_transient());
    assert!(!AgentError::Config("x".into()).is_transient());
    assert!(!AgentError::StdinTimeout.is_transient());
}

#[test]
fn permanent_errors_are_not_retried() {
    let step = retry_step(Service::GitHub, AgentError::Config("bad".into()), &mut 0, Some(5));
    match step {
        RetryStep::GiveUp(e) => assert_eq!(e.message(), "Config error: bad"),
        RetryStep::Wait(_) => panic!("a permanent error was retried"),
    }
}

#[test]
fn transient_errors_wait_for_the_backoff() {
    let step = retry_step(Service::Ai, AgentError::Timeout(3), &mut 0, Some(1500));
    assert!(matches!(step, RetryStep::Wait(1500)));
}

#[test]
fn exhausted_retries_end_with_a_permanent_error() {
    let step = retry_step(Service::Ai, AgentError::Timeout(3), &mut 0, None);
    match step {
        RetryStep::GiveUp(e) => {
            assert_eq!(
                e.message(),
                "AI API error: Max retries exceeded: Operation timed out after 3s"
            );
            assert!(!e.is_transient());
        }
        RetryStep::Wait(_) => panic!("there was no time left"),
    }
    let step = retry_step(
        Service::GitHub,
        AgentError::GitHub("GitHub API rate limit exceeded".into()),
        &mut 0,
        None,
    );
    match step {
        RetryStep::GiveUp(AgentError::GitHub(m)) => assert_eq!(
            m,
            "Max retries exceeded: GitHub API error: GitHub API rate limit exceeded"
        ),
        _ => panic!("expected a GitHub error"),
    }
}

#[test]
fn three_retries_and_no_more() {
    assert_eq!(MAX_RETRIES, 3);
    let mut retries = 0;
    let mut again = |ms| retry_step(Service::Ai, AgentError::Timeout(3), &mut retries, Some(ms));
    for ms in [1000, 2000, 4000] {
        assert!(matches!(again(ms), RetryStep::Wait(m) if m == ms));
    }
    match again(8000) {
        RetryStep::GiveUp(e) => assert_eq!(
            e.message(),
            "AI API error: Max retries exceeded: Operation timed out after 3s"
        ),
        RetryStep::Wait(_) => panic!("a fourth retry"),
    }
    assert_eq!(retries, 3);
}
