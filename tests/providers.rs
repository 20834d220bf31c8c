use ai_gateway_providers::config::{ConfigError, GlobalProviderConfig, ProvidersConfig, RawProviderConfig};
use ai_gateway_providers::date::{DateFormat, ReleaseDate};
use ai_gateway_providers::defaults::DEFAULT_ANTHROPIC_VERSION;
use ai_gateway_providers::model_id::{ModelId, ModelIdError, ModelIdWithVersion, Version};
use ai_gateway_providers::provider::InferenceProvider;

fn raw_entries_from_yaml(text: &str) -> Vec<(String, RawProviderConfig)> {
    let value: serde_yml::Value = serde_yml::from_str(text).unwrap();
    let mapping = value.as_mapping().unwrap();
    mapping
        .iter()
        .map(|(key, settings)| {
            let models = settings
                .get("models")
                .and_then(|m| m.as_sequence())
                .map(|seq| seq.iter().map(|m| m.as_str().unwrap().to_string()).collect())
                .unwrap_or_default();
            let base_url = settings.get("base-url").and_then(|u| u.as_str()).unwrap().to_string();
            let version = settings.get("version").and_then(|v| v.as_str()).map(|v| v.to_string());
            (key.to_string(), RawProviderConfig { models, base_url, version })
        })
        .collect()
}

fn raw(models: &[&str], base_url: &str, version: Option<&str>) -> RawProviderConfig {
    RawProviderConfig {
        models: models.iter().map(|m| m.to_string()).collect(),
        base_url: base_url.to_string(),
        version: version.map(|v| v.to_string()),
    }
}

fn parse(provider: InferenceProvider, s: &str) -> Result<ModelId, ModelIdError> {
    ModelId::from_str_and_provider(provider, s)
}

fn model(provider: InferenceProvider, name: &str, version: Version) -> ModelId {
    ModelId::ModelIdWithVersion {
        provider,
        id: ModelIdWithVersion { model: name.to_string(), version },
    }
}

fn dated(year: u16, month: u8, day: u8, format: DateFormat) -> Version {
    Version::Date { date: ReleaseDate { year, month, day }, format }
}

#[test]
fn test_default_providers_config_loads_from_yaml_string() {
    let _default_config = ProvidersConfig::load_default().unwrap();
}

#[test]
fn test_aibadgr_provider_loads() {
    let config = ProvidersConfig::load_default().unwrap();

    let aibadgr_provider = InferenceProvider::Named("aibadgr".into());
    let aibadgr_config = config.get(&aibadgr_provider);
    assert!(aibadgr_config.is_some(), "AI Badgr provider should be present in default config");

    let aibadgr_config = aibadgr_config.unwrap();
    assert_eq!(aibadgr_config.base_url.as_str(), "https://aibadgr.com/api/v1");

    assert!(aibadgr_config.models.len() >= 3);

    let has_basic = aibadgr_config.models.iter().any(|m| m.to_string().contains("basic"));
    let has_normal = aibadgr_config.models.iter().any(|m| m.to_string().contains("normal"));
    let has_premium = aibadgr_config.models.iter().any(|m| m.to_string().contains("premium"));

    assert!(has_basic, "Should have 'basic' model");
    assert!(has_normal, "Should have 'normal' model");
    assert!(has_premium, "Should have 'premium' model");
}

#[test]
fn test_providers_config_custom_deserialize() {
    let yaml = r#"
openai:
  models:
    - "gpt-4"
    - "gpt-4-turbo"
    - "gpt-4o"
    - "gpt-4o-mini"
  base-url: https://api.openai.com
anthropic:
  models:
    - "clio-3-opus-20240229"
    - "clio-3-sonnet-20240229"
  base-url: https://api.anthropic.com
  version: "2023-06-01"
"#;

    let config = ProvidersConfig::from_raw_entries(&raw_entries_from_yaml(yaml)).unwrap();

    let openai_config = config.get(&InferenceProvider::OpenAI).unwrap();
    assert_eq!(openai_config.models.len(), 4);
    assert_eq!(openai_config.base_url.as_str(), "https://api.openai.com/");

    let model_ids: Vec<ModelId> = openai_config.models.clone().into_iter().collect();
    assert_eq!(
        model_ids[0],
        ModelId::ModelIdWithVersion {
            provider: InferenceProvider::OpenAI,
            id: ModelIdWithVersion { model: "gpt-4".to_string(), version: Version::ImplicitLatest },
        }
    );
    let anthropic_config = config.get(&InferenceProvider::Anthropic).unwrap();
    assert_eq!(anthropic_config.models.len(), 2);
    let model_ids: Vec<ModelId> = anthropic_config.models.clone().into_iter().collect();
    assert_eq!(DateFormat::Compact.pattern(), "%Y%m%d");
    assert_eq!(
        model_ids[0],
        ModelId::ModelIdWithVersion {
            provider: InferenceProvider::Anthropic,
            id: ModelIdWithVersion {
                model: "clio-3-opus".to_string(),
                version: Version::Date {
                    date: ReleaseDate { year: 2024, month: 2, day: 29 },
                    format: DateFormat::Compact,
                },
            },
        }
    );
}

#[test]
fn spec_scenario_two_providers() {
    let yaml = r#"
openai:
  models: ["gpt-4", "gpt-4-turbo"]
  base-url: https://api.openai.com
anthropic:
  models: ["clio-3-opus-20240229"]
  base-url: https://api.anthropic.com
  version: "2023-06-01"
"#;
    let config = ProvidersConfig::from_raw_entries(&raw_entries_from_yaml(yaml)).unwrap();
    assert_eq!(config.len(), 2);
    let openai = config.get(&InferenceProvider::OpenAI).unwrap();
    assert_eq!(openai.models[0], model(InferenceProvider::OpenAI, "gpt-4", Version::ImplicitLatest));
    assert_eq!(openai.version, None);
    let anthropic = config.get(&InferenceProvider::Anthropic).unwrap();
    assert_eq!(
        anthropic.models[0],
        model(InferenceProvider::Anthropic, "clio-3-opus", dated(2024, 2, 29, DateFormat::Compact))
    );
    assert_eq!(anthropic.version.as_deref(), Some("2023-06-01"));
}

#[test]
fn empty_model_name_names_provider() {
    for token in ["openai", "anthropic", "gemini", "mistral"] {
        let entries = vec![(token.to_string(), raw(&[""], "https://example.com", None))];
        let provider = InferenceProvider::from_token(token).unwrap();
        assert_eq!(
            ProvidersConfig::from_raw_entries(&entries),
            Err(ConfigError::EmptyModelName { provider, model: String::new() })
        );
    }
}

#[test]
fn empty_model_name_after_stripping_date() {
    assert_eq!(
        parse(InferenceProvider::Anthropic, "-20240229"),
        Err(ModelIdError::EmptyModelName {
            provider: InferenceProvider::Anthropic,
            model: "-20240229".to_string()
        })
    );
}

#[test]
fn round_trip_format_then_parse() {
    let cases = [
        (InferenceProvider::Anthropic, "clio-3-opus-20240229"),
        (InferenceProvider::OpenAI, "gpt-4o-2024-08-06"),
        (InferenceProvider::OpenAI, "gpt-4o-mini"),
        (InferenceProvider::Named("acme".to_string()), "acme-large-20240101"),
    ];
    for (provider, s) in cases {
        let m = parse(provider.clone(), s).unwrap();
        let text = m.to_string();
        assert_eq!(text, s);
        assert_eq!(parse(provider, &text).unwrap(), m);
    }
}

#[test]
fn same_name_differs_by_provider() {
    let s = "clio-3-opus-20240229";
    let under_anthropic = parse(InferenceProvider::Anthropic, s).unwrap();
    let under_openai = parse(InferenceProvider::OpenAI, s).unwrap();
    assert_eq!(
        under_anthropic,
        model(InferenceProvider::Anthropic, "clio-3-opus", dated(2024, 2, 29, DateFormat::Compact))
    );
    assert_eq!(under_openai, model(InferenceProvider::OpenAI, s, Version::ImplicitLatest));
    let t = "gpt-4o-2024-08-06";
    assert_eq!(
        parse(InferenceProvider::OpenAI, t).unwrap(),
        model(InferenceProvider::OpenAI, "gpt-4o", dated(2024, 8, 6, DateFormat::Dashed))
    );
    assert_eq!(
        parse(InferenceProvider::Anthropic, t).unwrap(),
        model(InferenceProvider::Anthropic, t, Version::ImplicitLatest)
    );
}

#[test]
fn default_dataset_has_every_shipped_provider() {
    let config = ProvidersConfig::load_default().unwrap();
    let tokens: Vec<String> =
        (0..config.len()).map(|i| config.get_index(i).unwrap().0.as_token()).collect();
    assert_eq!(tokens, vec!["openai", "anthropic", "gemini", "bedrock", "ollama", "aibadgr"]);
    let anthropic = config.get(&InferenceProvider::Anthropic).unwrap();
    assert_eq!(anthropic.version.as_deref(), Some(DEFAULT_ANTHROPIC_VERSION));
    assert!(config.get_index(config.len()).is_none());
}

#[test]
fn duplicate_provider_key_is_rejected() {
    let entries = vec![
        ("openai".to_string(), raw(&["gpt-4"], "https://api.openai.com", None)),
        ("anthropic".to_string(), raw(&["clio-3-opus-20240229"], "https://api.anthropic.com", None)),
        ("openai".to_string(), raw(&["gpt-4o"], "https://other.example.com", None)),
    ];
    assert_eq!(
        ProvidersConfig::from_raw_entries(&entries),
        Err(ConfigError::DuplicateProviderKey { provider: InferenceProvider::OpenAI })
    );
}

#[test]
fn models_keep_input_order() {
    let entries = vec![(
        "openai".to_string(),
        raw(&["gpt-4o-mini", "gpt-4", "gpt-4-turbo"], "https://api.openai.com", None),
    )];
    let config = ProvidersConfig::from_raw_entries(&entries).unwrap();
    let names: Vec<String> = config
        .get(&InferenceProvider::OpenAI)
        .unwrap()
        .models
        .iter()
        .map(|m| m.to_string())
        .collect();
    assert_eq!(names, vec!["gpt-4o-mini", "gpt-4", "gpt-4-turbo"]);
}

#[test]
fn repeated_model_is_kept_once() {
    let entries = vec![(
        "anthropic".to_string(),
        raw(&["clio-3-opus-20240229", "clio-3-haiku", "clio-3-opus-20240229"], "https://api.anthropic.com", None),
    )];
    let config = ProvidersConfig::from_raw_entries(&entries).unwrap();
    let models = &config.get(&InferenceProvider::Anthropic).unwrap().models;
    assert_eq!(models.len(), 2);
    assert_eq!(models[1].to_string(), "clio-3-haiku");
}

#[test]
fn invalid_calendar_date_is_rejected() {
    let entries = vec![(
        "anthropic".to_string(),
        raw(&["clio-3-opus-20230229"], "https://api.anthropic.com", None),
    )];
    assert_eq!(
        ProvidersConfig::from_raw_entries(&entries),
        Err(ConfigError::InvalidVersionDate {
            provider: InferenceProvider::Anthropic,
            model: "clio-3-opus-20230229".to_string(),
            digits: "20230229".to_string(),
        })
    );
    assert!(matches!(
        parse(InferenceProvider::OpenAI, "gpt-4o-2024-13-01"),
        Err(ModelIdError::InvalidVersionDate { .. })
    ));
    assert!(parse(InferenceProvider::OpenAI, "gpt-4o-2024-02-30").is_err());
    assert!(parse(InferenceProvider::OpenAI, "gpt-4o-2000-02-29").is_ok());
    assert!(parse(InferenceProvider::OpenAI, "gpt-4o-1900-02-29").is_err());
}

#[test]
fn invalid_base_url_is_rejected() {
    let entries = vec![("gemini".to_string(), raw(&["gemini-pro"], "not a url", None))];
    assert_eq!(
        ProvidersConfig::from_raw_entries(&entries),
        Err(ConfigError::InvalidBaseUrl {
            provider: InferenceProvider::GoogleGemini,
            url: "not a url".to_string()
        })
    );
}

#[test]
fn invalid_provider_token_is_rejected() {
    let entries = vec![("Open AI".to_string(), raw(&["gpt-4"], "https://api.openai.com", None))];
    assert_eq!(
        ProvidersConfig::from_raw_entries(&entries),
        Err(ConfigError::InvalidProviderToken { token: "Open AI".to_string() })
    );
    assert_eq!(InferenceProvider::from_token(""), None);
}

#[test]
fn unknown_provider_token_is_named() {
    let p = InferenceProvider::from_token("mistral").unwrap();
    assert_eq!(p, InferenceProvider::Named("mistral".to_string()));
    assert_eq!(p.as_token(), "mistral");
    assert_eq!(InferenceProvider::from_token("gemini"), Some(InferenceProvider::GoogleGemini));
    assert_eq!(InferenceProvider::GoogleGemini.as_token(), "gemini");
    assert_ne!(InferenceProvider::Named("openai".to_string()), InferenceProvider::OpenAI);
}

#[test]
fn base_url_is_normalised() {
    let cfg = GlobalProviderConfig::decode(
        &InferenceProvider::Ollama,
        &raw(&["llama3.2"], "http://localhost:11434", None),
    )
    .unwrap();
    assert_eq!(cfg.base_url, "http://localhost:11434/");
}

#[test]
fn encode_writes_models_back_as_text() {
    let entries = vec![
        ("anthropic".to_string(), raw(&["clio-3-opus-20240229"], "https://api.anthropic.com", Some("2023-06-01"))),
        ("openai".to_string(), raw(&["gpt-4o-2024-08-06", "gpt-4"], "https://api.openai.com", None)),
    ];
    let config = ProvidersConfig::from_raw_entries(&entries).unwrap();
    let back = config.to_raw_entries();
    assert_eq!(back.len(), 2);
    assert_eq!(back[0].0, "anthropic");
    assert_eq!(back[0].1, raw(&["clio-3-opus-20240229"], "https://api.anthropic.com/", Some("2023-06-01")));
    assert_eq!(back[1].1, raw(&["gpt-4o-2024-08-06", "gpt-4"], "https://api.openai.com/", None));
    assert_eq!(ProvidersConfig::from_raw_entries(&back).unwrap(), config);
}

#[test]
fn date_text_layouts() {
    let d = ReleaseDate { year: 2024, month: 8, day: 6 };
    assert!(d.is_valid());
    assert_eq!(ReleaseDate::from_text("2024-08-06", DateFormat::Dashed), Some(d));
    assert_eq!(ReleaseDate::from_text("20240806", DateFormat::Compact), Some(d));
    assert_eq!(ReleaseDate::from_text("2024-0806", DateFormat::Dashed), None);
    assert_eq!(DateFormat::Dashed.pattern(), "%Y-%m-%d");
    let mut s = String::new();
    d.write_to(&mut s, DateFormat::Dashed);
    assert_eq!(s, "2024-08-06");
}

#[test]
fn get_tells_named_from_builtin() {
    let entries = vec![("openai".to_string(), raw(&["gpt-4"], "https://api.openai.com", None))];
    let config = ProvidersConfig::from_raw_entries(&entries).unwrap();
    assert!(config.get(&InferenceProvider::OpenAI).is_some());
    assert!(config.get(&InferenceProvider::Named("openai".to_string())).is_none());
    assert!(config.get(&InferenceProvider::Anthropic).is_none());
}

#[test]
fn default_dataset_entries_as_shipped() {
    let config = ProvidersConfig::load_default().unwrap();
    let aibadgr = config.get(&InferenceProvider::Named("aibadgr".to_string())).unwrap();
    let names: Vec<String> = aibadgr.models.iter().map(|m| m.to_string()).collect();
    assert_eq!(names, vec!["basic", "normal", "premium"]);
    assert_eq!(aibadgr.version, None);
    let openai = config.get(&InferenceProvider::OpenAI).unwrap();
    assert_eq!(openai.models.len(), 5);
    assert_eq!(
        openai.models[4],
        model(InferenceProvider::OpenAI, "gpt-4o", dated(2024, 8, 6, DateFormat::Dashed))
    );
    assert_eq!(openai.base_url, "https://api.openai.com/");
    let ollama = config.get(&InferenceProvider::Ollama).unwrap();
    assert_eq!(ollama.base_url, "http://localhost:11434/");
}

#[test]
fn empty_model_name_among_valid_ones() {
    let entries = vec![
        ("openai".to_string(), raw(&["gpt-4"], "https://api.openai.com", None)),
        ("acme".to_string(), raw(&["large", "", "small"], "https://acme.example.com", None)),
    ];
    assert_eq!(
        ProvidersConfig::from_raw_entries(&entries),
        Err(ConfigError::EmptyModelName {
            provider: InferenceProvider::Named("acme".to_string()),
            model: String::new()
        })
    );
}

#[test]
fn from_iter_keeps_first_place_and_last_settings() {
    let settings = |url: &str| {
        GlobalProviderConfig::decode(&InferenceProvider::OpenAI, &raw(&["gpt-4"], url, None)).unwrap()
    };
    let anthropic = GlobalProviderConfig::decode(
        &InferenceProvider::Anthropic,
        &raw(&["clio-3-opus-20240229"], "https://api.anthropic.com", None),
    )
    .unwrap();
    let config = ProvidersConfig::from_iter(vec![
        (InferenceProvider::OpenAI, settings("https://first.example.com")),
        (InferenceProvider::Anthropic, anthropic),
        (InferenceProvider::OpenAI, settings("https://second.example.com")),
    ]);
    assert_eq!(config.len(), 2);
    let (first, cfg) = config.get_index(0).unwrap();
    assert_eq!(*first, InferenceProvider::OpenAI);
    assert_eq!(cfg.base_url, "https://second.example.com/");
    assert_eq!(*config.get_index(1).unwrap().0, InferenceProvider::Anthropic);
}
