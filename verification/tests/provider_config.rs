use nu_sidecar::config::{Config, ConfigError, ProviderConfig, ProviderMap, TranscriptConfig};
use nu_sidecar::provider::ProviderKind;

fn pc(base: &str, model: &str, key: Option<&str>) -> ProviderConfig {
    ProviderConfig {
        base_url: base.to_string(),
        model: model.to_string(),
        api_key: key.map(|k| k.to_string()),
    }
}

#[test]
fn provider_identifiers_and_names() {
    assert_eq!(ProviderKind::LmStudio.as_str(), "lmStudio");
    assert_eq!(ProviderKind::LmStudio.display_name(), "LM Studio");
    assert_eq!(ProviderKind::OpenRouter.default_base_url(), "https://openrouter.ai/api/v1");
    assert_eq!(ProviderKind::Ollama.default_base_url(), "http://127.0.0.1:11434");
    assert_eq!(ProviderKind::OpenClaw.suggested_model(), "openclaw/default");
    assert_eq!(ProviderKind::Ollama.suggested_model(), "");
    assert!(ProviderKind::Hermes.requires_api_key());
    assert!(!ProviderKind::LmStudio.requires_api_key());
}

#[test]
fn parse_accepts_identifier_and_display_name_any_case() {
    for k in ProviderKind::all() {
        assert_eq!(ProviderKind::parse(k.as_str()), Some(k));
        assert_eq!(ProviderKind::parse(k.display_name()), Some(k));
    }
    assert_eq!(ProviderKind::parse("OPENROUTER"), Some(ProviderKind::OpenRouter));
    assert_eq!(ProviderKind::parse("lm studio"), Some(ProviderKind::LmStudio));
    assert_eq!(ProviderKind::parse("lmstudio"), Some(ProviderKind::LmStudio));
    assert_eq!(ProviderKind::parse("gpt"), None);
    assert_eq!(ProviderKind::parse(""), None);
    assert_eq!(ProviderKind::parse(" ollama"), None);
}

#[test]
fn default_config() {
    let c = Config::default();
    assert_eq!(c.active_provider, "ollama");
    assert_eq!(c.providers.len(), 0);
    assert_eq!(c.transcript.max_chars_per_entry, 4000);
    assert_eq!(c.transcript.max_total_chars, 32000);
    let t = TranscriptConfig::default();
    assert_eq!(t, TranscriptConfig { max_chars_per_entry: 4000, max_total_chars: 32000 });
}

#[test]
fn set_provider_then_active_config() {
    let mut c = Config::default();
    c.set_provider(ProviderKind::Hermes, pc("http://h", "m1", Some("k")));
    assert_eq!(c.active_provider, "hermes");
    assert_eq!(c.active_provider_kind(), Some(ProviderKind::Hermes));
    let (k, cfg) = c.active_provider_config().unwrap();
    assert_eq!(k, ProviderKind::Hermes);
    assert_eq!(cfg.base_url, "http://h");
    assert_eq!(cfg.model, "m1");
    assert_eq!(cfg.api_key.as_deref(), Some("k"));
    // Overwrite and add another; the earlier one is kept.
    c.set_provider(ProviderKind::Ollama, pc("http://o", "llama", None));
    c.set_provider(ProviderKind::Hermes, pc("http://h2", "m2", None));
    assert_eq!(c.providers.len(), 2);
    assert_eq!(c.providers.get("ollama").unwrap().model, "llama");
    assert_eq!(c.providers.get("hermes").unwrap().base_url, "http://h2");
    assert!(c.providers.get("openClaw").is_none());
}

#[test]
fn not_configured_errors() {
    let mut c = Config::default();
    match c.active_provider_config() {
        Err(ConfigError::NotConfigured(p)) => assert_eq!(p, "ollama"),
        other => panic!("unexpected {:?}", other.is_ok()),
    }
    c.active_provider = "nonsense".to_string();
    assert_eq!(c.active_provider_kind(), None);
    let e = c.active_provider_config().unwrap_err();
    assert_eq!(
        e.message(),
        "provider 'nonsense' is not configured yet; run `llm setup --provider nonsense`"
    );
    // Case-insensitive active name, canonical lookup key.
    c.active_provider = "OpenRouter".to_string();
    c.providers.insert("openRouter".to_string(), pc("u", "m", None));
    let (k, cfg) = c.active_provider_config().unwrap();
    assert_eq!(k, ProviderKind::OpenRouter);
    assert_eq!(cfg.base_url, "u");
}

#[test]
fn config_error_messages() {
    assert_eq!(ConfigError::Io("boom".into()).message(), "io error: boom");
    assert_eq!(
        ConfigError::Parse("bad".into()).message(),
        "failed to parse config.toml: bad"
    );
    assert_eq!(
        ConfigError::Serialize("x".into()).message(),
        "failed to serialize config: x"
    );
}

#[test]
fn provider_map_pairs() {
    let m = ProviderMap::from_pairs(vec![
        ("a".to_string(), pc("1", "", None)),
        ("b".to_string(), pc("2", "", None)),
        ("a".to_string(), pc("3", "", None)),
    ]);
    assert_eq!(m.len(), 2);
    assert_eq!(m.get("a").unwrap().base_url, "3");
    let pairs = m.to_pairs();
    assert_eq!(pairs.len(), 2);
    let mut keys: Vec<String> = pairs.iter().map(|p| p.0.clone()).collect();
    keys.sort();
    assert_eq!(keys, vec!["a".to_string(), "b".to_string()]);
    let back = ProviderMap::from_pairs(pairs);
    assert_eq!(back.len(), 2);
    assert_eq!(back.get("a").unwrap().base_url, "3");
    assert_eq!(back.get("b").unwrap().base_url, "2");
}
