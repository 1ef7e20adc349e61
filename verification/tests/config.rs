use review_agent::config::{
    config_candidates, default_ai_api_base, join_path, EnvOverrides, Settings, Temperature,
};
use review_agent::sensitive::Sensitive;

fn temperature(value: f64) -> Temperature {
    Temperature {
        bits: value.to_bits(),
        text: value.to_string(),
    }
}

fn no_overrides() -> EnvOverrides {
    EnvOverrides {
        ai_api_key: None,
        ai_api_base: None,
        model: None,
        github_token: None,
    }
}

#[test]
fn defaults_are_sane() {
    let s = Settings::default();
    assert_eq!(s.ai.api_base, "https://ai.cloudmagic.io/v1");
    assert_eq!(s.ai.model, "glm-4.6");
    assert_eq!(f64::from_bits(s.ai.temperature.bits), 0.2);
    assert_eq!(s.ai.temperature.text, "0.2");
    assert_eq!(s.ai.max_completion_tokens, 4096);
    assert_eq!(s.ai.request_timeout_secs, 120);
    assert_eq!(s.github.request_timeout_secs, 30);
    assert_eq!(s.github.max_concurrent_requests, 10);
    assert_eq!(s.review.max_input_tokens, 16000);
    assert_eq!(s.review.max_diff_files, 50);
    assert_eq!(s.review.extra_instructions, "");
}

#[test]
fn secrets_are_sensitive() {
    let s = Settings::default();
    assert_eq!(s.ai.api_key.display(), "***");
    assert_eq!(s.github.token.display(), "***");
}

#[test]
fn validate_passes_without_ai_key() {
    let s = Settings::default();
    assert!(s.ai.api_key.inner().is_empty(), "api key should be empty by default");
    assert!(
        s.validate().is_ok(),
        "validate should pass without AI key for MCP compatibility"
    );
}

#[test]
fn validate_passes_with_all_required() {
    let mut s = Settings::default();
    s.ai.api_key = Sensitive::new("sk-key".into());
    s.ai.api_base = "https://api.example.com/v1".into();
    assert!(s.validate().is_ok());
}

#[test]
fn validate_rejects_out_of_range_temperature() {
    let mut s = Settings::default();
    s.ai.api_key = Sensitive::new("sk-key".into());
    s.ai.api_base = "https://api.example.com/v1".into();
    // Below 0.0
    s.ai.temperature = temperature(-0.5);
    let err = s.validate().unwrap_err();
    assert!(err.message().contains("temperature"));
    assert_eq!(
        err.message(),
        "Config error: ai.temperature must be a finite number between 0.0 and 2.0, got -0.5"
    );

    // Above 2.0
    s.ai.temperature = temperature(3.0);
    let err = s.validate().unwrap_err();
    assert!(err.message().contains("temperature"));

    // NaN
    s.ai.temperature = temperature(f64::NAN);
    let err = s.validate().unwrap_err();
    assert!(err.message().contains("NaN"));

    // Boundary values should pass
    s.ai.temperature = temperature(0.0);
    assert!(s.validate().is_ok());
    s.ai.temperature = temperature(2.0);
    assert!(s.validate().is_ok());
}

#[test]
fn temperature_edges() {
    let mut s = Settings::default();
    s.ai.temperature = temperature(-0.0);
    assert!(s.validate().is_ok());
    s.ai.temperature = temperature(f64::from_bits(2.0f64.to_bits() + 1));
    assert!(s.validate().is_err());
    s.ai.temperature = temperature(f64::INFINITY);
    assert!(s.validate().unwrap_err().message().contains("got inf"));
    s.ai.temperature = temperature(f64::NEG_INFINITY);
    assert!(s.validate().is_err());
    s.ai.temperature = temperature(-f64::NAN);
    assert!(s.validate().unwrap_err().message().contains("NaN"));
    s.ai.temperature = temperature(f64::MIN_POSITIVE);
    assert!(s.validate().is_ok());
}

#[test]
fn validate_reports_each_problem() {
    let mut s = Settings::default();
    s.ai.api_base = "".into();
    assert_eq!(
        s.validate().unwrap_err().message(),
        "Config error: AI_API_BASE must be a non-empty URL"
    );
    s.ai.api_base = "not a url".into();
    assert_eq!(
        s.validate().unwrap_err().message(),
        "Config error: AI_API_BASE must be a valid http(s) URL, got 'not a url'"
    );
    s.ai.api_base = "ftp://example.com".into();
    assert!(s.validate().is_err());
    s.ai.api_base = "http://api.example.com/v1".into();
    assert_eq!(
        s.validate().unwrap_err().message(),
        "Config error: AI_API_BASE must use https, got 'http://api.example.com/v1'"
    );
    s.ai.api_base = "https://localhost:8080".into();
    assert!(s.validate().is_ok());
    s.ai.request_timeout_secs = 0;
    assert_eq!(
        s.validate().unwrap_err().message(),
        "Config error: ai.request_timeout_secs must be greater than 0"
    );
    s.ai.request_timeout_secs = 1;
    s.review.max_input_tokens = 0;
    assert_eq!(
        s.validate().unwrap_err().message(),
        "Config error: review.max_input_tokens must be greater than 0"
    );
}

#[test]
fn env_overrides_api_key() {
    let mut s = Settings::default();
    let mut env = no_overrides();
    env.ai_api_key = Some("env-override".into());
    s.with_env_overrides(env);
    assert_eq!(*s.ai.api_key.inner(), "env-override");
}

#[test]
fn env_overrides_model() {
    let mut s = Settings::default();
    let mut env = no_overrides();
    env.model = Some("custom-model".into());
    s.with_env_overrides(env);
    assert_eq!(s.ai.model, "custom-model");
}

#[test]
fn env_overrides_github_token() {
    let mut s = Settings::default();
    let mut env = no_overrides();
    env.github_token = Some("ghp_override".into());
    s.with_env_overrides(env);
    assert_eq!(*s.github.token.inner(), "ghp_override");
}

#[test]
fn empty_strings_in_defaults() {
    let s = Settings::default();
    assert_eq!(*s.ai.api_key.inner(), "");
    assert_eq!(*s.github.token.inner(), "");
}

#[test]
fn load_puts_the_environment_over_the_file() {
    let mut file = Settings::default();
    file.ai.model = "from-file".into();
    file.review.max_diff_files = 7;
    let mut env = no_overrides();
    env.ai_api_base = Some("https://other.example.com".into());
    let s = Settings::load(Some(file), env).unwrap_or_else(|_| panic!("valid settings"));
    assert_eq!(s.ai.model, "from-file");
    assert_eq!(s.ai.api_base, "https://other.example.com");
    assert_eq!(s.review.max_diff_files, 7);
}

#[test]
fn load_without_a_file_takes_the_defaults() {
    let s = Settings::load(None, no_overrides()).unwrap_or_else(|_| panic!("valid settings"));
    assert_eq!(s.ai.api_base, default_ai_api_base());
    let mut env = no_overrides();
    env.ai_api_base = Some("nonsense".into());
    assert!(Settings::load(None, env).is_err());
}

#[test]
fn candidates_in_order() {
    assert_eq!(
        config_candidates("review-agent", Some("/work"), "/home/u/.config"),
        vec![
            "/work/.github/review-agent.toml",
            "review-agent.toml",
            ".review-agent.toml",
            "/home/u/.config/review-agent/config.toml"
        ]
    );
    assert_eq!(config_candidates("x", None, "c").len(), 3);
    assert_eq!(join_path("/work/", "x"), "/work/x");
    assert_eq!(join_path("", "x"), "x");
}
