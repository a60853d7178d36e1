//! Startup configuration: validation of the parsed configuration file and
//! resolution of the selected provider's credential.

use vstd::prelude::*;

use crate::model::{IdentifierError, ModelName, ModelSelection, ProviderId, ReasoningEffort};
use crate::text::{framed, is_blank, push_str, str_equal, str_is_blank};

verus! {

/// The environment variable naming the Minuet data directory.
pub const HOME_ENV: &'static str = "MINUET_HOME";

/// The configuration file's name inside the data directory.
pub const CONFIG_FILE: &'static str = "config.toml";

/// The loop limit when the file sets none.
pub const DEFAULT_MAX_STEPS: usize = 8;

/// One provider table of the configuration file.
#[derive(Debug, Clone)]
pub struct RawProviderConfig {
    pub protocol: String,
    pub base_url: String,
    pub api_key_env: String,
}

/// The configuration file as parsed, before validation. Providers are keyed
/// by name, each name once.
#[derive(Debug, Clone)]
pub struct RawConfig {
    pub model: String,
    pub model_provider: String,
    pub model_reasoning_effort: Option<String>,
    pub loop_max_steps: usize,
    pub enabled_tools: Vec<String>,
    pub model_providers: Vec<(String, RawProviderConfig)>,
}

/// The wire protocols a provider may speak.
#[derive(Debug, Clone, Copy, PartialEq, Eq)]
pub enum Protocol {
    OpenAiResponses,
}

/// The selected provider. The credential is a snapshot resolved once at
/// load; it is never refreshed and never shown.
#[derive(Clone)]
pub struct ProviderConfig {
    pub protocol: Protocol,
    pub base_url: String,
    api_key: String,
}

impl ProviderConfig {
    pub closed spec fn key(&self) -> Seq<char> {
        self.api_key@
    }

    pub closed spec fn protocol_spec(&self) -> Protocol {
        self.protocol
    }

    pub closed spec fn base_url_spec(&self) -> Seq<char> {
        self.base_url@
    }

    pub fn new(protocol: Protocol, base_url: String, api_key: String) -> (p: Self)
        ensures
            p.protocol_spec() == protocol,
            p.base_url_spec() == base_url@,
            p.key() == api_key@,
    {
        ProviderConfig { protocol, base_url, api_key }
    }

    pub fn api_key(&self) -> (k: &str)
        ensures
            k@ == self.key(),
    {
        self.api_key.as_str()
    }
}

/// A validated startup snapshot.
#[derive(Clone)]
pub struct Config {
    pub home: String,
    pub model: ModelSelection,
    pub default_reasoning_effort: Option<ReasoningEffort>,
    pub loop_max_steps: usize,
    pub enabled_tools: Vec<String>,
    pub provider: ProviderConfig,
}

/// `path` joined with a relative file name, as `Path::join` does on Unix.
pub open spec fn path_join(path: Seq<char>, name: Seq<char>) -> Seq<char> {
    if path.len() == 0 {
        name
    } else if path.last() == '/' {
        path + name
    } else {
        path + seq!['/'] + name
    }
}

impl Config {
    /// The configuration file's path inside the data directory.
    pub fn config_path(&self) -> (p: String)
        ensures
            p@ == path_join(self.home@, CONFIG_FILE@),
    {
        config_path_in(self.home.as_str())
    }
}

/// The configuration file's path inside `home`.
pub fn config_path_in(home: &str) -> (p: String)
    ensures
        p@ == path_join(home@, CONFIG_FILE@),
{
    let cs = crate::text::chars_of(home);
    if cs.len() == 0 {
        return CONFIG_FILE.to_owned();
    }
    let mut p = home.to_owned();
    assert(cs@.last() == cs@[cs@.len() - 1]);
    if cs[cs.len() - 1] != '/' {
        push_str(&mut p, "/");
        proof {
            reveal_strlit("/");
        }
    }
    push_str(&mut p, CONFIG_FILE);
    p
}

/// What the environment held for the credential variable.
#[derive(Debug)]
pub enum EnvLookup {
    Present(String),
    NotPresent,
    NotUnicode,
}

/// Why configuration could not be loaded.
#[derive(Debug)]
pub enum ConfigError {
    HomeNotSet,
    CurrentDirectory(String),
    Read { path: String, message: String },
    Parse { path: String, message: String },
    Identifier(IdentifierError),
    ProviderNotFound(String),
    UnsupportedProtocol(String),
    EmptyField(&'static str),
    ApiKeyNotSet(String),
    ApiKeyNotUnicode(String),
    EmptyApiKey(String),
    ZeroMaxSteps,
}

/// A configuration problem as values.
pub enum ConfigProblem {
    Identifier(IdentifierError),
    ProviderNotFound(Seq<char>),
    UnsupportedProtocol(Seq<char>),
    EmptyField(Seq<char>),
    ApiKeyNotSet(Seq<char>),
    ApiKeyNotUnicode(Seq<char>),
    EmptyApiKey(Seq<char>),
    ZeroMaxSteps,
    Other,
}

pub open spec fn config_problem_of(e: ConfigError) -> ConfigProblem {
    match e {
        ConfigError::Identifier(i) => ConfigProblem::Identifier(i),
        ConfigError::ProviderNotFound(s) => ConfigProblem::ProviderNotFound(s@),
        ConfigError::UnsupportedProtocol(s) => ConfigProblem::UnsupportedProtocol(s@),
        ConfigError::EmptyField(f) => ConfigProblem::EmptyField(f@),
        ConfigError::ApiKeyNotSet(s) => ConfigProblem::ApiKeyNotSet(s@),
        ConfigError::ApiKeyNotUnicode(s) => ConfigProblem::ApiKeyNotUnicode(s@),
        ConfigError::EmptyApiKey(s) => ConfigProblem::EmptyApiKey(s@),
        ConfigError::ZeroMaxSteps => ConfigProblem::ZeroMaxSteps,
        _ => ConfigProblem::Other,
    }
}

/// Refuses a blank value of the named field.
pub fn ensure_non_empty(field: &'static str, value: &str) -> (r: Result<(), ConfigError>)
    ensures
        is_blank(value@) <==> r is Err,
        r matches Err(e) ==> config_problem_of(e) == ConfigProblem::EmptyField(field@),
{
    if str_is_blank(value) {
        return Err(ConfigError::EmptyField(field));
    }
    Ok(())
}

/// The index of the first provider table named `name`.
pub open spec fn provider_index(providers: Seq<(String, RawProviderConfig)>, name: Seq<char>) -> Option<int>
    decreases providers.len(),
{
    if providers.len() == 0 {
        None
    } else {
        match provider_index(providers.drop_last(), name) {
            Some(i) => Some(i),
            None => if providers.last().0@ == name {
                Some(providers.len() - 1)
            } else {
                None
            },
        }
    }
}

/// Whether some enabled tool name is blank.
pub open spec fn blank_tool(names: Seq<String>) -> bool {
    exists|k: int| 0 <= k < names.len() && is_blank(#[trigger] names[k]@)
}

/// The first problem of a parsed configuration, checked in this order: the
/// provider, model and reasoning-effort identifiers, the loop limit, the
/// selected provider's table, its protocol, base URL and credential
/// variable, and the enabled tool names.
pub open spec fn raw_problem(raw: RawConfig) -> Option<ConfigProblem> {
    if is_blank(raw.model_provider@) {
        Some(ConfigProblem::Identifier(IdentifierError::Empty("provider")))
    } else if is_blank(raw.model@) {
        Some(ConfigProblem::Identifier(IdentifierError::Empty("model")))
    } else if raw.model_reasoning_effort matches Some(e) && is_blank(e@) {
        Some(ConfigProblem::Identifier(IdentifierError::Empty("reasoning effort")))
    } else if raw.loop_max_steps == 0 {
        Some(ConfigProblem::ZeroMaxSteps)
    } else {
        match provider_index(raw.model_providers@, raw.model_provider@) {
            None => Some(ConfigProblem::ProviderNotFound(raw.model_provider@)),
            Some(i) => {
                let p = raw.model_providers@[i].1;
                if p.protocol@ != "openai-responses"@ {
                    Some(ConfigProblem::UnsupportedProtocol(p.protocol@))
                } else if is_blank(p.base_url@) {
                    Some(ConfigProblem::EmptyField("provider base_url"@))
                } else if is_blank(p.api_key_env@) {
                    Some(ConfigProblem::EmptyField("provider api_key_env"@))
                } else if blank_tool(raw.enabled_tools@) {
                    Some(ConfigProblem::EmptyField("enabled tool name"@))
                } else {
                    None
                }
            },
        }
    }
}

/// A validated configuration whose credential is still to be read.
pub struct ConfigDraft {
    home: String,
    model: ModelSelection,
    default_reasoning_effort: Option<ReasoningEffort>,
    loop_max_steps: usize,
    enabled_tools: Vec<String>,
    base_url: String,
    api_key_env: String,
}

impl ConfigDraft {
    pub closed spec fn key_env(&self) -> Seq<char> {
        self.api_key_env@
    }

    pub closed spec fn home_spec(&self) -> Seq<char> {
        self.home@
    }

    pub closed spec fn model_spec(&self) -> ModelSelection {
        self.model
    }

    pub closed spec fn effort_spec(&self) -> Option<ReasoningEffort> {
        self.default_reasoning_effort
    }

    pub closed spec fn max_steps_spec(&self) -> usize {
        self.loop_max_steps
    }

    pub closed spec fn tools_spec(&self) -> Seq<String> {
        self.enabled_tools@
    }

    pub closed spec fn base_url_spec(&self) -> Seq<char> {
        self.base_url@
    }

    /// Validates a parsed configuration for the data directory `home`. Only
    /// the selected provider is checked; other provider tables are ignored.
    pub fn validate(home: String, raw: RawConfig) -> (r: Result<Self, ConfigError>)
        ensures
            match raw_problem(raw) {
                Some(p) => r matches Err(e) && config_problem_of(e) == p,
                None => r is Ok,
            },
            r matches Ok(d) ==> {
                let p = raw.model_providers@[provider_index(raw.model_providers@, raw.model_provider@)->0].1;
                &&& d.home_spec() == home@
                &&& d.model_spec().provider@ == raw.model_provider@
                &&& d.model_spec().model@ == raw.model@
                &&& (match raw.model_reasoning_effort {
                    None => d.effort_spec() is None,
                    Some(e) => d.effort_spec() matches Some(x) && x@ == e@,
                })
                &&& d.max_steps_spec() == raw.loop_max_steps
                &&& d.tools_spec() == raw.enabled_tools@
                &&& d.base_url_spec() == p.base_url@
                &&& d.key_env() == p.api_key_env@
            },
    {
        let provider = match ProviderId::new(raw.model_provider.as_str()) {
            Ok(p) => p,
            Err(e) => return Err(ConfigError::Identifier(e)),
        };
        let model = match ModelName::new(raw.model.as_str()) {
            Ok(m) => m,
            Err(e) => return Err(ConfigError::Identifier(e)),
        };
        let default_reasoning_effort = match &raw.model_reasoning_effort {
            None => None,
            Some(e) => match ReasoningEffort::new(e.as_str()) {
                Ok(x) => Some(x),
                Err(e) => return Err(ConfigError::Identifier(e)),
            },
        };
        if raw.loop_max_steps == 0 {
            return Err(ConfigError::ZeroMaxSteps);
        }
        let mut i: usize = 0;
        while i < raw.model_providers.len()
            invariant
                i <= raw.model_providers@.len(),
                provider_index(raw.model_providers@.take(i as int), raw.model_provider@) is None,
            ensures
                i <= raw.model_providers@.len(),
                provider_index(raw.model_providers@.take(i as int), raw.model_provider@) is None,
                i < raw.model_providers@.len() ==> raw.model_providers@[i as int].0@ == raw.model_provider@,
            decreases raw.model_providers.len() - i,
        {
            assert(raw.model_providers@.take(i + 1).drop_last() =~= raw.model_providers@.take(i as int));
            if str_equal(raw.model_providers[i].0.as_str(), raw.model_provider.as_str()) {
                break;
            }
            i += 1;
        }
        if i == raw.model_providers.len() {
            assert(raw.model_providers@.take(i as int) =~= raw.model_providers@);
            return Err(ConfigError::ProviderNotFound(raw.model_provider.clone()));
        }
        proof {
            lemma_provider_index_prefix(raw.model_providers@, raw.model_provider@, i as int);
        }
        let p = &raw.model_providers[i].1;
        if !str_equal(p.protocol.as_str(), "openai-responses") {
            return Err(ConfigError::UnsupportedProtocol(p.protocol.clone()));
        }
        ensure_non_empty("provider base_url", p.base_url.as_str())?;
        ensure_non_empty("provider api_key_env", p.api_key_env.as_str())?;
        let ghost rest = if blank_tool(raw.enabled_tools@) {
            Some(ConfigProblem::EmptyField("enabled tool name"@))
        } else {
            None::<ConfigProblem>
        };
        assert(raw_problem(raw) == rest);
        let mut k: usize = 0;
        while k < raw.enabled_tools.len()
            invariant
                raw_problem(raw) == rest,
                rest == if blank_tool(raw.enabled_tools@) {
                    Some(ConfigProblem::EmptyField("enabled tool name"@))
                } else {
                    None::<ConfigProblem>
                },
                k <= raw.enabled_tools@.len(),
                forall|j: int| 0 <= j < k ==> !is_blank(#[trigger] raw.enabled_tools@[j]@),
            decreases raw.enabled_tools.len() - k,
        {
            if str_is_blank(raw.enabled_tools[k].as_str()) {
                assert(is_blank(raw.enabled_tools@[k as int]@));
                return Err(ConfigError::EmptyField("enabled tool name"));
            }
            k += 1;
        }
        let base_url = p.base_url.clone();
        let api_key_env = p.api_key_env.clone();
        Ok(ConfigDraft {
            home,
            model: ModelSelection { provider, model },
            default_reasoning_effort,
            loop_max_steps: raw.loop_max_steps,
            enabled_tools: raw.enabled_tools,
            base_url,
            api_key_env,
        })
    }

    /// The environment variable holding the selected provider's credential.
    pub fn api_key_env(&self) -> (s: &str)
        ensures
            s@ == self.key_env(),
    {
        self.api_key_env.as_str()
    }

    /// Completes the configuration with what the environment held for the
    /// credential variable. A missing, non-Unicode or blank credential is
    /// refused, naming the variable but never its value.
    pub fn complete(self, key: EnvLookup) -> (r: Result<Config, ConfigError>)
        ensures
            match key {
                EnvLookup::NotPresent => r matches Err(e) && config_problem_of(e) == ConfigProblem::ApiKeyNotSet(self.key_env()),
                EnvLookup::NotUnicode => r matches Err(e) && config_problem_of(e) == ConfigProblem::ApiKeyNotUnicode(self.key_env()),
                EnvLookup::Present(v) => if is_blank(v@) {
                    r matches Err(e) && config_problem_of(e) == ConfigProblem::EmptyApiKey(self.key_env())
                } else {
                    r matches Ok(c) && c.home@ == self.home_spec() && c.model == self.model_spec()
                        && c.default_reasoning_effort == self.effort_spec() && c.loop_max_steps
                        == self.max_steps_spec() && c.enabled_tools@ == self.tools_spec()
                        && c.provider.protocol_spec() == Protocol::OpenAiResponses
                        && c.provider.base_url_spec() == self.base_url_spec() && c.provider.key() == v@
                },
            },
    {
        let api_key = match key {
            EnvLookup::NotPresent => return Err(ConfigError::ApiKeyNotSet(self.api_key_env)),
            EnvLookup::NotUnicode => return Err(ConfigError::ApiKeyNotUnicode(self.api_key_env)),
            EnvLookup::Present(v) => v,
        };
        if str_is_blank(api_key.as_str()) {
            return Err(ConfigError::EmptyApiKey(self.api_key_env));
        }
        Ok(Config {
            home: self.home,
            model: self.model,
            default_reasoning_effort: self.default_reasoning_effort,
            loop_max_steps: self.loop_max_steps,
            enabled_tools: self.enabled_tools,
            provider: ProviderConfig { protocol: Protocol::OpenAiResponses, base_url: self.base_url, api_key },
        })
    }
}

/// A table found by a scan that saw no earlier match is the first match.
proof fn lemma_provider_index_prefix(providers: Seq<(String, RawProviderConfig)>, name: Seq<char>, i: int)
    requires
        0 <= i < providers.len(),
        provider_index(providers.take(i), name) is None,
        providers[i].0@ == name,
    ensures
        provider_index(providers, name) == Some(i),
    decreases providers.len(),
{
    if i < providers.len() - 1 {
        assert(providers.drop_last().take(i) =~= providers.take(i));
        lemma_provider_index_prefix(providers.drop_last(), name, i);
    } else {
        assert(providers.drop_last() =~= providers.take(i));
    }
}

/// The text of a configuration error.
pub open spec fn config_error_text(e: ConfigError) -> Seq<char> {
    match e {
        ConfigError::HomeNotSet => "MINUET_HOME must point to the Minuet data directory"@,
        ConfigError::CurrentDirectory(m) => "failed to resolve the current directory: "@ + m@,
        ConfigError::Read { path, message } => "failed to read configuration at "@ + path@ + ": "@ + message@,
        ConfigError::Parse { path, message } => "failed to parse configuration at "@ + path@ + ": "@ + message@,
        ConfigError::Identifier(IdentifierError::Empty(what)) => what@ + " must not be empty"@,
        ConfigError::ProviderNotFound(s) => "model provider `"@ + s@ + "` has no configuration"@,
        ConfigError::UnsupportedProtocol(s) => "unsupported protocol `"@ + s@ + "`"@,
        ConfigError::EmptyField(f) => f@ + " must not be empty"@,
        ConfigError::ApiKeyNotSet(s) => "API key environment variable `"@ + s@ + "` is not set"@,
        ConfigError::ApiKeyNotUnicode(s) => "API key environment variable `"@ + s@ + "` is not valid Unicode"@,
        ConfigError::EmptyApiKey(s) => "API key environment variable `"@ + s@ + "` must not be empty"@,
        ConfigError::ZeroMaxSteps => "loop.max_steps must be greater than zero"@,
    }
}

impl ConfigError {
    pub fn message(&self) -> (s: String)
        ensures
            s@ == config_error_text(*self),
    {
        match self {
            ConfigError::HomeNotSet => "MINUET_HOME must point to the Minuet data directory".to_owned(),
            ConfigError::CurrentDirectory(m) => {
                let mut s = "failed to resolve the current directory: ".to_owned();
                push_str(&mut s, m.as_str());
                s
            },
            ConfigError::Read { path, message } => {
                let mut s = framed("failed to read configuration at ", path.as_str(), ": ");
                push_str(&mut s, message.as_str());
                s
            },
            ConfigError::Parse { path, message } => {
                let mut s = framed("failed to parse configuration at ", path.as_str(), ": ");
                push_str(&mut s, message.as_str());
                s
            },
            ConfigError::Identifier(e) => e.message(),
            ConfigError::ProviderNotFound(s) => framed("model provider `", s.as_str(), "` has no configuration"),
            ConfigError::UnsupportedProtocol(s) => framed("unsupported protocol `", s.as_str(), "`"),
            ConfigError::EmptyField(f) => {
                let mut s = (*f).to_owned();
                push_str(&mut s, " must not be empty");
                s
            },
            ConfigError::ApiKeyNotSet(s) => framed("API key environment variable `", s.as_str(), "` is not set"),
            ConfigError::ApiKeyNotUnicode(s) => framed("API key environment variable `", s.as_str(), "` is not valid Unicode"),
            ConfigError::EmptyApiKey(s) => framed("API key environment variable `", s.as_str(), "` must not be empty"),
            ConfigError::ZeroMaxSteps => "loop.max_steps must be greater than zero".to_owned(),
        }
    }
}

} // verus!
