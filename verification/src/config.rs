//! Settings: defaults, overrides from the environment, and validation.
use vstd::prelude::*;

use crate::error::AgentError;
use crate::sensitive::Sensitive;
use crate::text::{ends_with, starts_with, text_ends_with, text_starts_with};
use crate::web::{parse_url, url_parsed};

verus! {

/// A sampling temperature: an IEEE 754 double by its bits, and its decimal text.
pub struct Temperature {
    pub bits: u64,
    pub text: String,
}

/// The bits of a double that is not a number: all exponent bits set, and some
/// bit of the fraction.
pub open spec fn is_nan(bits: u64) -> bool {
    bits % 0x8000_0000_0000_0000 > 0x7ff0_0000_0000_0000
}

/// The bits of a double from 0.0 to 2.0. Doubles without a sign are ordered as
/// their bits are, and 2.0 has the bits 0x4000000000000000; minus zero counts
/// as zero.
pub open spec fn in_temperature_range(bits: u64) -> bool {
    bits <= 0x4000_0000_0000_0000 || bits == 0x8000_0000_0000_0000
}

/// The AI provider.
pub struct AiConfig {
    pub api_base: String,
    pub model: String,
    pub api_key: Sensitive<String>,
    pub request_timeout_secs: u64,
    pub temperature: Temperature,
    pub max_completion_tokens: u32,
}

/// The GitHub API.
pub struct GitHubConfig {
    pub token: Sensitive<String>,
    /// The address of the API; empty for the public one.
    pub base_url: String,
    pub request_timeout_secs: u64,
    pub max_concurrent_requests: usize,
}

/// Budgets and behaviour of reviews.
pub struct ReviewConfig {
    pub max_input_tokens: usize,
    pub max_diff_files: usize,
    pub extra_instructions: String,
}

/// All settings.
pub struct Settings {
    pub ai: AiConfig,
    pub github: GitHubConfig,
    pub review: ReviewConfig,
}

/// The environment variables that settings are taken from: `AI_API_KEY`,
/// `AI_API_BASE`, `MODEL` and `GITHUB_TOKEN`, where they are set.
pub struct EnvOverrides {
    pub ai_api_key: Option<String>,
    pub ai_api_base: Option<String>,
    pub model: Option<String>,
    pub github_token: Option<String>,
}

pub fn default_ai_api_base() -> (r: String)
    ensures
        r@ == "https://ai.cloudmagic.io/v1"@,
{
    "https://ai.cloudmagic.io/v1".to_owned()
}

pub fn default_ai_model() -> (r: String)
    ensures
        r@ == "glm-4.6"@,
{
    "glm-4.6".to_owned()
}

pub fn default_ai_timeout() -> (r: u64)
    ensures
        r == 120,
{
    120
}

/// The default temperature, 0.2.
pub fn default_ai_temperature() -> (r: Temperature)
    ensures
        r.bits == 0x3fc9_9999_9999_999a,
        r.text@ == "0.2"@,
{
    Temperature { bits: 0x3fc9_9999_9999_999a, text: "0.2".to_owned() }
}

pub fn default_ai_max_completion_tokens() -> (r: u32)
    ensures
        r == 4096,
{
    4096
}

pub fn default_github_timeout() -> (r: u64)
    ensures
        r == 30,
{
    30
}

pub fn default_github_concurrency() -> (r: usize)
    ensures
        r == 10,
{
    10
}

pub fn default_max_input_tokens() -> (r: usize)
    ensures
        r == 16_000,
{
    16_000
}

pub fn default_max_diff_files() -> (r: usize)
    ensures
        r == 50,
{
    50
}

impl AiConfig {
    pub open spec fn is_default(self) -> bool {
        &&& self.api_base@ == "https://ai.cloudmagic.io/v1"@
        &&& self.model@ == "glm-4.6"@
        &&& self.api_key.secret()@ == ""@
        &&& self.request_timeout_secs == 120
        &&& self.temperature.bits == 0x3fc9_9999_9999_999a
        &&& self.temperature.text@ == "0.2"@
        &&& self.max_completion_tokens == 4096
    }
}

impl GitHubConfig {
    pub open spec fn is_default(self) -> bool {
        &&& self.token.secret()@ == ""@
        &&& self.base_url@ == ""@
        &&& self.request_timeout_secs == 30
        &&& self.max_concurrent_requests == 10
    }
}

impl ReviewConfig {
    pub open spec fn is_default(self) -> bool {
        &&& self.max_input_tokens == 16_000
        &&& self.max_diff_files == 50
        &&& self.extra_instructions@ == ""@
    }
}

impl Default for AiConfig {
    fn default() -> (r: Self)
        ensures
            r.is_default(),
    {
        AiConfig {
            api_base: default_ai_api_base(),
            model: default_ai_model(),
            api_key: Sensitive::new("".to_owned()),
            request_timeout_secs: default_ai_timeout(),
            temperature: default_ai_temperature(),
            max_completion_tokens: default_ai_max_completion_tokens(),
        }
    }
}

impl Default for GitHubConfig {
    fn default() -> (r: Self)
        ensures
            r.is_default(),
    {
        GitHubConfig {
            token: Sensitive::new("".to_owned()),
            base_url: "".to_owned(),
            request_timeout_secs: default_github_timeout(),
            max_concurrent_requests: default_github_concurrency(),
        }
    }
}

impl Default for ReviewConfig {
    fn default() -> (r: Self)
        ensures
            r.is_default(),
    {
        ReviewConfig {
            max_input_tokens: default_max_input_tokens(),
            max_diff_files: default_max_diff_files(),
            extra_instructions: "".to_owned(),
        }
    }
}

impl Default for Settings {
    fn default() -> (r: Self)
        ensures
            r.ai.is_default(),
            r.github.is_default(),
            r.review.is_default(),
    {
        Settings {
            ai: AiConfig::default(),
            github: GitHubConfig::default(),
            review: ReviewConfig::default(),
        }
    }
}

impl Settings {
    /// What is wrong with the settings: the first of the tests that fails.
    pub open spec fn problem(self) -> Option<Seq<char>> {
        let base = self.ai.api_base@;
        if base.len() == 0 {
            Some("AI_API_BASE must be a non-empty URL"@)
        } else if url_parsed(base) is Ok && starts_with(base, "http://"@) {
            Some("AI_API_BASE must use https, got '"@ + base + "'"@)
        } else if url_parsed(base) is Err || !starts_with(base, "https://"@) {
            Some("AI_API_BASE must be a valid http(s) URL, got '"@ + base + "'"@)
        } else if is_nan(self.ai.temperature.bits) {
            Some(
                "ai.temperature must be a finite number between 0.0 and 2.0, got NaN (not a number)"@,
            )
        } else if !in_temperature_range(self.ai.temperature.bits) {
            Some(
                "ai.temperature must be a finite number between 0.0 and 2.0, got "@
                    + self.ai.temperature.text@,
            )
        } else if self.ai.request_timeout_secs == 0 {
            Some("ai.request_timeout_secs must be greater than 0"@)
        } else if self.review.max_input_tokens == 0 {
            Some("review.max_input_tokens must be greater than 0"@)
        } else {
            None
        }
    }

    /// Validates the settings: the address of the model is a URL with the `https`
    /// scheme, the temperature is in range, and the limits are positive. An API
    /// key is not asked for: it is only needed once a review is made.
    pub fn validate(&self) -> (r: Result<(), AgentError>)
        ensures
            match r {
                Ok(()) => self.problem() is None,
                Err(e) => e matches AgentError::Config(m) && self.problem() == Some(m@),
            },
    {
        let base = self.ai.api_base.as_str();
        if base.is_empty() {
            return Err(AgentError::Config("AI_API_BASE must be a non-empty URL".to_owned()));
        }
        let valid = parse_url(base).is_ok();
        if valid && text_starts_with(base, "http://") {
            let mut m = "AI_API_BASE must use https, got '".to_owned();
            m.push_str(base);
            m.push_str("'");
            return Err(AgentError::Config(m));
        }
        if !valid || !text_starts_with(base, "https://") {
            let mut m = "AI_API_BASE must be a valid http(s) URL, got '".to_owned();
            m.push_str(base);
            m.push_str("'");
            return Err(AgentError::Config(m));
        }
        let bits: u64 = self.ai.temperature.bits;
        if bits % 0x8000_0000_0000_0000 > 0x7ff0_0000_0000_0000 {
            return Err(
                AgentError::Config(
                    "ai.temperature must be a finite number between 0.0 and 2.0, got NaN (not a number)".to_owned(),
                ),
            );
        }
        if !(bits <= 0x4000_0000_0000_0000 || bits == 0x8000_0000_0000_0000) {
            let mut m =
                "ai.temperature must be a finite number between 0.0 and 2.0, got ".to_owned();
            m.push_str(self.ai.temperature.text.as_str());
            return Err(AgentError::Config(m));
        }
        if self.ai.request_timeout_secs == 0 {
            return Err(
                AgentError::Config("ai.request_timeout_secs must be greater than 0".to_owned()),
            );
        }
        if self.review.max_input_tokens == 0 {
            return Err(
                AgentError::Config("review.max_input_tokens must be greater than 0".to_owned()),
            );
        }
        Ok(())
    }

    /// The settings `to` are the settings `from` with what the environment sets
    /// put over them.
    pub open spec fn overlaid(from: Settings, env: EnvOverrides, to: Settings) -> bool {
        &&& to.ai.api_key.secret() == match env.ai_api_key {
            Some(v) => v,
            None => from.ai.api_key.secret(),
        }
        &&& to.ai.api_base == match env.ai_api_base {
            Some(v) => v,
            None => from.ai.api_base,
        }
        &&& to.ai.model == match env.model {
            Some(v) => v,
            None => from.ai.model,
        }
        &&& to.github.token.secret() == match env.github_token {
            Some(v) => v,
            None => from.github.token.secret(),
        }
        &&& to.ai.request_timeout_secs == from.ai.request_timeout_secs
        &&& to.ai.temperature == from.ai.temperature
        &&& to.ai.max_completion_tokens == from.ai.max_completion_tokens
        &&& to.github.base_url == from.github.base_url
        &&& to.github.request_timeout_secs == from.github.request_timeout_secs
        &&& to.github.max_concurrent_requests == from.github.max_concurrent_requests
        &&& to.review == from.review
    }

    /// Puts what the environment sets over the settings.
    pub fn with_env_overrides(&mut self, env: EnvOverrides)
        ensures
            Settings::overlaid(*old(self), env, *final(self)),
    {
        match env.ai_api_key {
            Some(v) => {
                self.ai.api_key = Sensitive::new(v);
            },
            None => {},
        }
        match env.ai_api_base {
            Some(v) => {
                self.ai.api_base = v;
            },
            None => {},
        }
        match env.model {
            Some(v) => {
                self.ai.model = v;
            },
            None => {},
        }
        match env.github_token {
            Some(v) => {
                self.github.token = Sensitive::new(v);
            },
            None => {},
        }
    }

    /// The settings of a file, or the defaults where there is none, with what
    /// the environment sets put over them; or what is wrong with the outcome.
    pub fn load(file: Option<Settings>, env: EnvOverrides) -> (r: Result<Self, AgentError>)
        ensures
            match r {
                Ok(s) => s.problem() is None && match file {
                    Some(f) => Settings::overlaid(f, env, s),
                    None => exists|d: Settings|
                        d.ai.is_default() && d.github.is_default() && d.review.is_default()
                            && #[trigger] Settings::overlaid(d, env, s),
                },
                Err(e) => e matches AgentError::Config(m) && exists|d: Settings, s: Settings|
                    (match file {
                        Some(f) => d == f,
                        None => d.ai.is_default() && d.github.is_default()
                            && d.review.is_default(),
                    }) && #[trigger] Settings::overlaid(d, env, s) && s.problem() == Some(m@),
            },
    {
        let mut s = match file {
            Some(f) => f,
            None => Settings::default(),
        };
        let ghost before = s;
        s.with_env_overrides(env);
        assert(Settings::overlaid(before, env, s));
        match s.validate() {
            Ok(()) => Ok(s),
            Err(e) => Err(e),
        }
    }
}

/// A path below a directory.
pub open spec fn joined_path(dir: Seq<char>, rest: Seq<char>) -> Seq<char> {
    if dir.len() == 0 || ends_with(dir, "/"@) {
        dir + rest
    } else {
        dir + "/"@ + rest
    }
}

/// A path below a directory.
pub fn join_path(dir: &str, rest: &str) -> (r: String)
    ensures
        r@ == joined_path(dir@, rest@),
{
    let mut out = dir.to_owned();
    if !dir.is_empty() && !text_ends_with(dir, "/") {
        out.push_str("/");
    }
    out.push_str(rest);
    out
}

/// Where settings are looked for, in the order in which they count: below the
/// workspace of a GitHub action, in the working directory, and in the
/// configuration directory of the user. The files have the name of the program.
pub fn config_candidates(program: &str, workspace: Option<&str>, home_config: &str) -> (r: Vec<
    String,
>)
    ensures
        match workspace {
            Some(w) => r@.len() == 4 && r@[0]@ == joined_path(
                w@,
                ".github/"@ + program@ + ".toml"@,
            ),
            None => r@.len() == 3,
        },
        r@[r@.len() - 3]@ == program@ + ".toml"@,
        r@[r@.len() - 2]@ == "."@ + program@ + ".toml"@,
        r@[r@.len() - 1]@ == joined_path(home_config@, program@ + "/config.toml"@),
{
    let mut out: Vec<String> = Vec::new();
    match workspace {
        Some(w) => {
            let mut name = ".github/".to_owned();
            name.push_str(program);
            name.push_str(".toml");
            out.push(join_path(w, name.as_str()));
        },
        None => {},
    }
    let mut plain = program.to_owned();
    plain.push_str(".toml");
    out.push(plain);
    let mut hidden = ".".to_owned();
    hidden.push_str(program);
    hidden.push_str(".toml");
    out.push(hidden);
    let mut own = program.to_owned();
    own.push_str("/config.toml");
    out.push(join_path(home_config, own.as_str()));
    out
}

/// Settings are valid just where the model is reached by a secure address, the
/// temperature is a number in range, and neither the time nor the tokens that a request
/// may take are none.
pub proof fn valid_settings_can_be_used(s: Settings)
    ensures
        s.problem() is None <==> {
            &&& url_parsed(s.ai.api_base@) is Ok
            &&& starts_with(s.ai.api_base@, "https://"@)
            &&& !is_nan(s.ai.temperature.bits)
            &&& in_temperature_range(s.ai.temperature.bits)
            &&& s.ai.request_timeout_secs > 0
            &&& s.review.max_input_tokens > 0
        },
        s.problem() matches Some(why) ==> why.len() > 0,
{
    reveal_strlit("https://");
    reveal_strlit("http://");
    let base = s.ai.api_base@;
    if starts_with(base, "https://"@) && starts_with(base, "http://"@) {
        assert(base.subrange(0, 8)[4] == base[4]);
        assert(base.subrange(0, 7)[4] == base[4]);
    }
    reveal_strlit("AI_API_BASE must be a non-empty URL");
    reveal_strlit("AI_API_BASE must use https, got '");
    reveal_strlit("AI_API_BASE must be a valid http(s) URL, got '");
    reveal_strlit(
        "ai.temperature must be a finite number between 0.0 and 2.0, got NaN (not a number)",
    );
    reveal_strlit("ai.temperature must be a finite number between 0.0 and 2.0, got ");
    reveal_strlit("ai.request_timeout_secs must be greater than 0");
    reveal_strlit("review.max_input_tokens must be greater than 0");
}

/// No number that is not one is in range, nor is one with a sign but for zero; and of
/// two numbers without a sign that are in range, so is whatever lies between.
pub proof fn temperatures_are_ordered(low: u64, bits: u64)
    ensures
        is_nan(bits) ==> !in_temperature_range(bits),
        in_temperature_range(0),
        in_temperature_range(0x4000_0000_0000_0000),
        !in_temperature_range(0x4000_0000_0000_0001),
        low <= bits && bits <= 0x7fff_ffff_ffff_ffff && in_temperature_range(bits)
            ==> in_temperature_range(low),
{
}

/// What the environment sets counts, and what it does not set stays as it was.
pub proof fn the_environment_counts(from: Settings, env: EnvOverrides, to: Settings)
    requires
        Settings::overlaid(from, env, to),
    ensures
        env.ai_api_key matches Some(v) ==> to.ai.api_key.secret() == v,
        env.ai_api_key is None ==> to.ai.api_key.secret() == from.ai.api_key.secret(),
        env.ai_api_base matches Some(v) ==> to.ai.api_base == v,
        env.ai_api_base is None ==> to.ai.api_base == from.ai.api_base,
        env.model matches Some(v) ==> to.ai.model == v,
        env.model is None ==> to.ai.model == from.ai.model,
        env.github_token matches Some(v) ==> to.github.token.secret() == v,
        env.github_token is None ==> to.github.token.secret() == from.github.token.secret(),
        to.ai.request_timeout_secs == from.ai.request_timeout_secs,
        to.ai.temperature == from.ai.temperature,
        to.ai.max_completion_tokens == from.ai.max_completion_tokens,
        to.github.base_url == from.github.base_url,
        to.github.request_timeout_secs == from.github.request_timeout_secs,
        to.github.max_concurrent_requests == from.github.max_concurrent_requests,
        to.review == from.review,
{
}

/// A path below a directory begins with the directory and ends with the path, with one
/// slash between them.
pub proof fn paths_are_joined_by_one_slash(dir: Seq<char>, rest: Seq<char>)
    ensures
        joined_path(Seq::empty(), rest) == rest,
        joined_path(dir + "/"@, rest) == dir + "/"@ + rest,
        dir.len() > 0 && dir.last() != '/' ==> joined_path(dir, rest) == dir + "/"@ + rest,
{
    reveal_strlit("/");
    assert(joined_path(Seq::empty(), rest) =~= rest);
    let d = dir + "/"@;
    assert(d.subrange(d.len() - 1, d.len() as int) =~= "/"@);
    if dir.len() > 0 && ends_with(dir, "/"@) {
        assert(dir.subrange(dir.len() - 1, dir.len() as int)[0] == dir.last());
    }
}

} // verus!
