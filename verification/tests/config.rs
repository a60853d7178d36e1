use minuet::config::{
    ConfigDraft, ConfigError, DEFAULT_MAX_STEPS, EnvLookup, Protocol, RawConfig, RawProviderConfig,
    config_path_in,
};

fn string(v: &toml::Value, key: &str) -> String {
    v.get(key).and_then(toml::Value::as_str).unwrap().to_owned()
}

fn raw(contents: &str) -> RawConfig {
    let v: toml::Value = toml::from_str(contents).unwrap();
    let providers = v
        .get("model_providers")
        .and_then(toml::Value::as_table)
        .unwrap()
        .iter()
        .map(|(name, p)| {
            (
                name.clone(),
                RawProviderConfig {
                    protocol: string(p, "protocol"),
                    base_url: string(p, "base_url"),
                    api_key_env: string(p, "api_key_env"),
                },
            )
        })
        .collect();
    RawConfig {
        model: string(&v, "model"),
        model_provider: string(&v, "model_provider"),
        model_reasoning_effort: v.get("model_reasoning_effort").and_then(toml::Value::as_str).map(str::to_owned),
        loop_max_steps: v
            .get("loop")
            .and_then(|l| l.get("max_steps"))
            .and_then(toml::Value::as_integer)
            .map(|n| n as usize)
            .unwrap_or(DEFAULT_MAX_STEPS),
        enabled_tools: v
            .get("tools")
            .and_then(|t| t.get("enabled"))
            .and_then(toml::Value::as_array)
            .map(|a| a.iter().map(|x| x.as_str().unwrap().to_owned()).collect())
            .unwrap_or_default(),
        model_providers: providers,
    }
}

fn parse(contents: &str) -> Result<minuet::config::Config, ConfigError> {
    let draft = ConfigDraft::validate("/tmp/minuet-test".to_owned(), raw(contents))?;
    draft.complete(EnvLookup::Present("test-key".into()))
}

#[test]
fn parses_minimal_configuration() {
    let config = parse(
        r#"
            model = "MiniMax-M3"
            model_provider = "minimax"

            [model_providers.minimax]
            protocol = "openai-responses"
            base_url = "https://api.minimax.cn/v1"
            api_key_env = "MINIMAX_API_KEY"
        "#,
    )
    .unwrap();

    assert_eq!(config.model.provider.as_str(), "minimax");
    assert_eq!(config.model.model.as_str(), "MiniMax-M3");
    assert_eq!(config.loop_max_steps, 8);
    assert!(config.enabled_tools.is_empty());
    assert_eq!(config.provider.protocol, Protocol::OpenAiResponses);
}

#[test]
fn keeps_reasoning_effort_opaque() {
    let config = parse(
        r#"
            model = "some-model"
            model_provider = "private"
            model_reasoning_effort = "vendor-level-7"

            [loop]
            max_steps = 3

            [tools]
            enabled = ["echo"]

            [model_providers.private]
            protocol = "openai-responses"
            base_url = "https://example.test/v1"
            api_key_env = "PRIVATE_KEY"
        "#,
    )
    .unwrap();

    assert_eq!(config.default_reasoning_effort.unwrap().as_str(), "vendor-level-7");
    assert_eq!(config.loop_max_steps, 3);
    assert_eq!(config.enabled_tools, ["echo"]);
}

#[test]
fn rejects_unknown_protocols() {
    let error = parse(
        r#"
            model = "model"
            model_provider = "provider"

            [model_providers.provider]
            protocol = "mystery"
            base_url = "https://example.test/v1"
            api_key_env = "API_KEY"
        "#,
    )
    .err()
    .unwrap();

    assert!(matches!(error, ConfigError::UnsupportedProtocol(_)));
}

const SNAPSHOT_CONFIG: &str = r#"
    model = "test-model"
    model_provider = "selected"
    [model_providers.selected]
    protocol = "openai-responses"
    base_url = "https://example.test/v1"
    api_key_env = "SELECTED_KEY"
    [model_providers.unused]
    protocol = "openai-responses"
    base_url = "https://unused.test/v1"
    api_key_env = "UNUSED_KEY"
"#;

#[test]
fn only_the_selected_provider_credential_is_read_and_kept() {
    let draft = ConfigDraft::validate("/tmp/minuet-test".to_owned(), raw(SNAPSHOT_CONFIG)).unwrap();
    assert_eq!(draft.api_key_env(), "SELECTED_KEY");
    let config = draft.complete(EnvLookup::Present("original-test-secret".into())).unwrap();
    assert_eq!(config.provider.api_key(), "original-test-secret");
    let cloned = config.clone();
    assert_eq!(cloned.provider.api_key(), "original-test-secret");
    assert_eq!(config.provider.base_url, "https://example.test/v1");
}

#[test]
fn credential_errors_name_the_variable_but_not_the_value() {
    let load = |value| ConfigDraft::validate("/tmp/minuet-test".to_owned(), raw(SNAPSHOT_CONFIG)).unwrap().complete(value);
    assert!(matches!(load(EnvLookup::NotPresent), Err(ConfigError::ApiKeyNotSet(name)) if name == "SELECTED_KEY"));
    for value in ["", " \t\n"] {
        assert!(matches!(load(EnvLookup::Present(value.into())), Err(ConfigError::EmptyApiKey(name)) if name == "SELECTED_KEY"));
    }
    let error = load(EnvLookup::NotUnicode).err().unwrap();
    assert!(matches!(&error, ConfigError::ApiKeyNotUnicode(name) if name == "SELECTED_KEY"));
    assert_eq!(error.message(), "API key environment variable `SELECTED_KEY` is not valid Unicode");
}

#[test]
fn validation_reports_the_first_problem_in_order() {
    let mut r = raw(SNAPSHOT_CONFIG);
    r.loop_max_steps = 0;
    assert!(matches!(ConfigDraft::validate(String::new(), r), Err(ConfigError::ZeroMaxSteps)));
    let mut r = raw(SNAPSHOT_CONFIG);
    r.model_provider = "absent".into();
    assert!(matches!(ConfigDraft::validate(String::new(), r), Err(ConfigError::ProviderNotFound(p)) if p == "absent"));
    let mut r = raw(SNAPSHOT_CONFIG);
    r.enabled_tools = vec!["echo".into(), " ".into()];
    let e = ConfigDraft::validate(String::new(), r).err().unwrap();
    assert_eq!(e.message(), "enabled tool name must not be empty");
    let mut r = raw(SNAPSHOT_CONFIG);
    r.model = "".into();
    assert_eq!(ConfigDraft::validate(String::new(), r).err().unwrap().message(), "model must not be empty");
}

#[test]
fn the_configuration_file_lives_in_the_data_directory() {
    assert_eq!(config_path_in("/tmp/minuet"), "/tmp/minuet/config.toml");
    assert_eq!(config_path_in("/tmp/minuet/"), "/tmp/minuet/config.toml");
    assert_eq!(config_path_in(""), "config.toml");
}
