use conga_core::agent::{AgentDefaults, ModelProfile, ProfileError, ProviderType};
use conga_core::name_map::NameMap;
use conga_core::providers::{
    key_env_var, rig_kind, rig_plan, LegacyProviderSettings, ModelSettings, ProviderBuildError,
    ProviderRegistry, ProviderSettings, RigKind,
};

fn bits(x: f64) -> Option<u64> {
    Some(x.to_bits())
}

fn tbits(x: f32) -> Option<u32> {
    Some(x.to_bits())
}

fn profile(provider: &str, model: &str, temperature: Option<f32>, max_tokens: Option<u32>) -> ModelProfile {
    ModelProfile {
        provider: provider.to_string(),
        model: model.to_string(),
        description: None,
        capabilities: vec![],
        temperature_bits: temperature.map(|t| t.to_bits()),
        thinking_enabled: None,
        max_tokens,
    }
}

fn models(entries: Vec<(&str, ModelSettings)>) -> NameMap<ModelSettings> {
    let mut m = NameMap::new();
    for (k, v) in entries {
        m.insert(k.to_string(), v);
    }
    m
}

#[test]
fn test_agent_defaults_constants() {
    assert_eq!(f32::from_bits(AgentDefaults::DEFAULT_TEMPERATURE_BITS), 0.7);
    assert_eq!(AgentDefaults::DEFAULT_MAX_TOKENS, 4096);
    assert_eq!(AgentDefaults::DEFAULT_MAX_ITERATIONS, 20);
    assert_eq!(AgentDefaults::DEFAULT_MEMORY_WINDOW, 50);
    assert!(AgentDefaults::DEFAULT_STREAMING);
    assert!(!AgentDefaults::DEFAULT_THINKING_ENABLED);
}

#[test]
fn test_model_profile_validation() {
    let valid = profile("openai", "gpt-4o", Some(0.5), Some(4096));
    assert!(valid.validate().is_ok());

    let invalid_provider = profile("", "gpt-4o", None, None);
    assert!(invalid_provider.validate().is_err());

    let invalid_temp = profile("openai", "gpt-4o", Some(3.0), None);
    assert!(invalid_temp.validate().is_err());
}

#[test]
fn profile_checks_run_in_order_with_exact_errors() {
    assert_eq!(profile(" ", "", None, None).validate(), Err(ProfileError::EmptyProvider));
    assert_eq!(profile("p", "  ", None, None).validate(), Err(ProfileError::EmptyModel));
    assert_eq!(
        profile("p", "m", Some(-0.5), Some(0)).validate(),
        Err(ProfileError::TemperatureOutOfRange((-0.5f32).to_bits()))
    );
    assert_eq!(profile("p", "m", Some(f32::NAN), None).validate(), Err(ProfileError::TemperatureOutOfRange(f32::NAN.to_bits())));
    assert_eq!(profile("p", "m", Some(2.0), Some(0)).validate(), Err(ProfileError::ZeroMaxTokens));
    assert!(profile("p", "m", Some(-0.0), Some(1)).validate().is_ok());
    assert!(profile("p", "m", Some(0.0), None).validate().is_ok());
    assert_eq!(
        ProfileError::TemperatureOutOfRange(3.0f32.to_bits()).message(&format!("{}", 3.0f32)),
        "temperature must be between 0.0 and 2.0, got 3"
    );
    assert_eq!(ProfileError::ZeroMaxTokens.message(""), "max_tokens must be greater than 0");
}

#[test]
fn test_model_config_has_pricing() {
    let complete = ModelSettings {
        price_input_per_million_bits: bits(1.0),
        price_output_per_million_bits: bits(2.0),
        currency: Some("USD".to_string()),
        ..Default::default()
    };
    assert!(complete.has_pricing());

    let partial = ModelSettings {
        price_input_per_million_bits: bits(1.0),
        price_output_per_million_bits: None,
        ..Default::default()
    };
    assert!(!partial.has_pricing());
}

#[test]
fn test_model_config_get_pricing() {
    let config = ModelSettings {
        price_input_per_million_bits: bits(1.0),
        price_output_per_million_bits: bits(2.0),
        currency: Some("CNY".to_string()),
        ..Default::default()
    };
    let pricing = config.get_pricing(None).unwrap();
    assert_eq!(f64::from_bits(pricing.input_per_million_bits), 1.0);
    assert_eq!(f64::from_bits(pricing.output_per_million_bits), 2.0);
    assert_eq!(pricing.currency, "CNY");

    let config = ModelSettings {
        price_input_per_million_bits: bits(1.0),
        price_output_per_million_bits: bits(2.0),
        currency: None,
        ..Default::default()
    };
    let pricing = config.get_pricing(Some("EUR")).unwrap();
    assert_eq!(pricing.currency, "EUR");

    let pricing = config.get_pricing(None).unwrap();
    assert_eq!(pricing.currency, "USD");
}

#[test]
fn test_model_config_runtime_params() {
    let config = ModelSettings {
        temperature_bits: tbits(0.7),
        max_tokens: Some(4096),
        max_iterations: Some(10),
        memory_window: Some(20),
        thinking_enabled: Some(true),
        streaming: Some(false),
        ..Default::default()
    };
    assert_eq!(config.temperature_bits.map(f32::from_bits), Some(0.7));
    assert_eq!(config.max_tokens, Some(4096));
    assert_eq!(config.max_iterations, Some(10));
    assert_eq!(config.memory_window, Some(20));
    assert_eq!(config.thinking_enabled, Some(true));
    assert_eq!(config.streaming, Some(false));
}

#[test]
fn test_provider_is_available() {
    let provider = ProviderSettings { api_key: None, ..Default::default() };
    assert!(!provider.is_available("openai"));

    let provider = ProviderSettings { api_key: Some("".to_string()), ..Default::default() };
    assert!(!provider.is_available("openai"));

    let provider = ProviderSettings { api_key: Some("sk-xxx".to_string()), ..Default::default() };
    assert!(provider.is_available("openai"));

    let provider = ProviderSettings::default();
    assert!(provider.is_available("ollama"));
    assert!(provider.is_available("litellm"));
}

#[test]
fn blank_api_key_is_not_available() {
    let provider = ProviderSettings { api_key: Some(" \t ".to_string()), ..Default::default() };
    assert!(!provider.is_available("openai"));
}

#[test]
fn test_supports_thinking() {
    let provider = ProviderSettings {
        models: models(vec![(
            "deepseek-reasoner",
            ModelSettings { thinking_enabled: Some(true), ..Default::default() },
        )]),
        ..Default::default()
    };
    assert!(provider.supports_thinking());
    assert!(provider.thinking_enabled_for_model("deepseek-reasoner"));
    assert!(!provider.thinking_enabled_for_model("other-model"));

    let provider = ProviderSettings {
        models: models(vec![("gpt-4o", ModelSettings { thinking_enabled: Some(false), ..Default::default() })]),
        ..Default::default()
    };
    assert!(!provider.supports_thinking());
}

#[test]
fn test_new_format_model_pricing() {
    let provider = ProviderSettings {
        provider_type: ProviderType::Openai,
        api_base: "https://api.example.com/v1".to_string(),
        api_key: Some("sk-xxx".to_string()),
        default_currency: Some("CNY".to_string()),
        models: models(vec![
            (
                "deepseek-chat",
                ModelSettings {
                    price_input_per_million_bits: bits(0.5),
                    price_output_per_million_bits: bits(1.0),
                    ..Default::default()
                },
            ),
            (
                "deepseek-reasoner",
                ModelSettings {
                    price_input_per_million_bits: bits(2.0),
                    price_output_per_million_bits: bits(8.0),
                    currency: Some("USD".to_string()),
                    thinking_enabled: Some(true),
                    max_tokens: Some(8192),
                    ..Default::default()
                },
            ),
        ]),
        ..Default::default()
    };
    assert_eq!(provider.provider_type, ProviderType::Openai);
    assert_eq!(provider.api_base, "https://api.example.com/v1");

    let pricing = provider.get_pricing_for_model("deepseek-chat").unwrap();
    assert_eq!(f64::from_bits(pricing.input_per_million_bits), 0.5);
    assert_eq!(f64::from_bits(pricing.output_per_million_bits), 1.0);
    assert_eq!(pricing.currency, "CNY");

    let pricing = provider.get_pricing_for_model("deepseek-reasoner").unwrap();
    assert_eq!(f64::from_bits(pricing.input_per_million_bits), 2.0);
    assert_eq!(f64::from_bits(pricing.output_per_million_bits), 8.0);
    assert_eq!(pricing.currency, "USD");

    let model_cfg = provider.get_model_config("deepseek-reasoner").unwrap();
    assert_eq!(model_cfg.thinking_enabled, Some(true));
    assert_eq!(model_cfg.max_tokens, Some(8192));

    assert!(provider.get_pricing_for_model("unknown").is_none());
}

#[test]
fn test_backward_compatible_provider_pricing() {
    let legacy = LegacyProviderSettings {
        api_key: Some("sk-xxx".to_string()),
        api_base: Some("https://api.example.com/v1".to_string()),
        price_input_per_million_bits: bits(3.0),
        price_output_per_million_bits: bits(15.0),
        currency: Some("USD".to_string()),
        ..Default::default()
    };
    let provider = ProviderSettings::from_legacy(legacy);

    assert!(provider.models.contains_key("_default"));
    let default_model = provider.models.get("_default").unwrap();
    assert_eq!(default_model.price_input_per_million_bits, bits(3.0));
    assert_eq!(default_model.price_output_per_million_bits, bits(15.0));
    assert_eq!(default_model.currency, Some("USD".to_string()));
    assert_eq!(provider.default_currency, Some("USD".to_string()));
}

#[test]
fn test_backward_compatible_with_models() {
    let legacy = LegacyProviderSettings {
        api_key: Some("sk-xxx".to_string()),
        api_base: Some("https://api.example.com/v1".to_string()),
        price_input_per_million_bits: bits(0.5),
        price_output_per_million_bits: bits(1.0),
        currency: Some("CNY".to_string()),
        models: models(vec![(
            "deepseek-reasoner",
            ModelSettings {
                price_input_per_million_bits: bits(2.0),
                price_output_per_million_bits: bits(8.0),
                ..Default::default()
            },
        )]),
        ..Default::default()
    };
    let provider = ProviderSettings::from_legacy(legacy);

    let pricing = provider.get_pricing_for_model("deepseek-reasoner").unwrap();
    assert_eq!(f64::from_bits(pricing.input_per_million_bits), 2.0);
    assert_eq!(f64::from_bits(pricing.output_per_million_bits), 8.0);
    assert_eq!(pricing.currency, "CNY");

    let default_model = provider.models.get("_default").unwrap();
    assert_eq!(default_model.price_input_per_million_bits, bits(0.5));
    assert_eq!(default_model.price_output_per_million_bits, bits(1.0));
}

#[test]
fn legacy_thinking_fills_only_unset_models_and_existing_default_is_kept() {
    let legacy = LegacyProviderSettings {
        supports_thinking: Some(true),
        price_input_per_million_bits: bits(9.0),
        price_output_per_million_bits: bits(9.0),
        models: models(vec![
            ("a", ModelSettings::default()),
            ("b", ModelSettings { thinking_enabled: Some(false), ..Default::default() }),
            ("_default", ModelSettings { max_tokens: Some(7), ..Default::default() }),
        ]),
        ..Default::default()
    };
    let provider = ProviderSettings::from_legacy(legacy);
    assert_eq!(provider.api_base, "");
    assert_eq!(provider.models.get("a").unwrap().thinking_enabled, Some(true));
    assert_eq!(provider.models.get("b").unwrap().thinking_enabled, Some(false));
    let d = provider.models.get("_default").unwrap();
    assert_eq!(d.max_tokens, Some(7));
    assert_eq!(d.price_input_per_million_bits, None);
    assert_eq!(d.thinking_enabled, Some(true));
    assert_eq!(provider.models.len(), 3);
}

fn registry_with(entries: Vec<(&str, ProviderSettings)>) -> ProviderRegistry {
    let providers = entries.into_iter().map(|(n, c)| (n.to_string(), c)).collect();
    ProviderRegistry::from_config(providers, None)
}

#[test]
fn test_empty_registry() {
    let registry = ProviderRegistry::new();
    assert!(registry.is_empty());
    assert_eq!(registry.len(), 0);
    assert!(registry.list_providers().is_empty());
}

#[test]
fn test_contains_provider() {
    let registry = registry_with(vec![(
        "test",
        ProviderSettings {
            api_key: Some("test-key".to_string()),
            api_base: "https://api.example.com/v1".to_string(),
            ..Default::default()
        },
    )]);
    assert!(registry.contains("test"));
    assert!(!registry.contains("other"));
}

#[test]
fn test_is_available() {
    let registry = registry_with(vec![
        (
            "openai",
            ProviderSettings {
                api_key: Some("sk-test".to_string()),
                api_base: "https://api.openai.com/v1".to_string(),
                ..Default::default()
            },
        ),
        (
            "empty",
            ProviderSettings { api_key: None, api_base: "https://api.example.com/v1".to_string(), ..Default::default() },
        ),
        ("ollama", ProviderSettings { api_base: "http://localhost:11434/v1".to_string(), ..Default::default() }),
    ]);
    assert!(registry.is_available("openai"));
    assert!(!registry.is_available("empty"));
    assert!(registry.is_available("ollama"));
    assert_eq!(registry.list_providers(), vec!["empty", "ollama", "openai"]);
    assert_eq!(registry.list_available_providers(), vec!["ollama", "openai"]);
}

#[test]
fn test_provider_with_gemini_type() {
    let registry = registry_with(vec![(
        "gemini",
        ProviderSettings {
            provider_type: ProviderType::Gemini,
            api_key: Some("test-key".to_string()),
            api_base: "https://generativelanguage.googleapis.com/v1beta".to_string(),
            ..Default::default()
        },
    )]);
    assert!(registry.contains("gemini"));
    assert!(registry.is_available("gemini"));
}

#[test]
fn test_provider_with_anthropic_type() {
    let registry = registry_with(vec![(
        "anthropic",
        ProviderSettings {
            provider_type: ProviderType::Anthropic,
            api_key: Some("sk-ant-test".to_string()),
            api_base: "https://api.anthropic.com/v1".to_string(),
            ..Default::default()
        },
    )]);
    assert!(registry.contains("anthropic"));
    assert!(registry.is_available("anthropic"));
}

#[test]
fn test_provider_with_model_configs() {
    let registry = registry_with(vec![(
        "deepseek",
        ProviderSettings {
            provider_type: ProviderType::Openai,
            api_key: Some("sk-test".to_string()),
            api_base: "https://api.deepseek.com/v1".to_string(),
            models: models(vec![(
                "deepseek-reasoner",
                ModelSettings { thinking_enabled: Some(true), max_tokens: Some(8192), ..Default::default() },
            )]),
            ..Default::default()
        },
    )]);
    let config = registry.get_config("deepseek").unwrap();
    assert!(config.thinking_enabled_for_model("deepseek-reasoner"));
    assert!(!config.thinking_enabled_for_model("other-model"));
}

#[test]
fn registry_default_provider_and_last_pair_wins() {
    let providers = vec![
        ("x".to_string(), ProviderSettings { api_base: "first".to_string(), ..Default::default() }),
        ("x".to_string(), ProviderSettings { api_base: "second".to_string(), ..Default::default() }),
    ];
    let registry = ProviderRegistry::from_config(providers, Some("openai/gpt-4o"));
    assert_eq!(registry.len(), 1);
    assert_eq!(registry.get_config("x").unwrap().api_base, "second");
    assert_eq!(registry.get_default_provider().map(|s| s.as_str()), Some("openai"));
    let plain = ProviderRegistry::from_config(Vec::new(), Some("coder"));
    assert_eq!(plain.get_default_provider().map(|s| s.as_str()), Some("coder"));
}

#[test]
fn provider_build_refusals_and_success() {
    let registry = registry_with(vec![
        ("nokey", ProviderSettings { api_base: "https://x/v1".to_string(), ..Default::default() }),
        ("nobase", ProviderSettings { api_key: Some("k".to_string()), ..Default::default() }),
        (
            "gem",
            ProviderSettings {
                provider_type: ProviderType::Gemini,
                api_key: Some("k".to_string()),
                api_base: "https://g".to_string(),
                ..Default::default()
            },
        ),
        (
            "ok",
            ProviderSettings {
                provider_type: ProviderType::Anthropic,
                api_key: Some("k".to_string()),
                api_base: "https://a/v1".to_string(),
                proxy_enabled: Some(false),
                ..Default::default()
            },
        ),
        ("ollama", ProviderSettings { api_base: "http://localhost:11434/v1".to_string(), ..Default::default() }),
    ]);
    let e = registry.provider_build("missing").unwrap_err();
    assert_eq!(e, ProviderBuildError::NotFound("missing".to_string()));
    assert_eq!(e.message(), "Provider not found: missing");
    let e = registry.provider_build("nokey").unwrap_err();
    assert_eq!(e.message(), "Provider nokey is not available (missing API key)");
    let e = registry.provider_build("nobase").unwrap_err();
    assert_eq!(
        e.message(),
        "Provider 'nobase' is missing required 'api_base' configuration. Please add 'api_base' to your provider config in ~/.gasket/config.yaml"
    );
    let e = registry.provider_build("gem").unwrap_err();
    assert_eq!(e, ProviderBuildError::GeminiNotCompiled);
    let b = registry.provider_build("ok").unwrap();
    assert_eq!(b.name, "ok");
    assert_eq!(b.api_base, "https://a/v1");
    assert_eq!(b.api_key, "k");
    assert_eq!(b.default_model, "default");
    assert!(!b.proxy_enabled);
    let local = registry.provider_build("ollama").unwrap();
    assert_eq!(local.api_key, "");
    assert!(local.proxy_enabled);
}

#[test]
fn rig_plan_routes_by_name() {
    assert_eq!(rig_kind("anthropic"), RigKind::Anthropic);
    assert_eq!(rig_kind("tencent"), RigKind::OpenAiCompatible);
    assert_eq!(key_env_var("deepseek"), Some("DEEPSEEK_API_KEY".to_string()));
    assert_eq!(key_env_var("tencent"), Some("TENCENT_API_KEY".to_string()));
    assert_eq!(key_env_var("ollama"), None);

    let p = rig_plan("ollama", Some("ignored".to_string()), None, "llama3", None).unwrap();
    assert_eq!(p.kind, RigKind::Ollama);
    assert_eq!(p.api_key, None);
    assert!(rig_plan("deepseek", None, None, "m", None).is_none());
    let p = rig_plan("deepseek", None, Some("env-k".to_string()), "m", None).unwrap();
    assert_eq!(p.api_key, Some("env-k".to_string()));
    assert_eq!(p.base_url, None);
    let p = rig_plan("tencent", Some("k".to_string()), Some("env".to_string()), "m", None).unwrap();
    assert_eq!(p.api_key, Some("k".to_string()));
    assert_eq!(p.base_url.as_deref(), Some("https://api.hunyuan.tencentcloud.com/v1"));
    let p = rig_plan("custom", Some("k".to_string()), None, "m", None).unwrap();
    assert_eq!(p.base_url.as_deref(), Some("https://api.openai.com/v1"));
    let p = rig_plan("gemini", Some("k".to_string()), None, "m", Some("https://own".to_string())).unwrap();
    assert_eq!(p.base_url.as_deref(), Some("https://own"));
}

#[test]
fn test_agent_defaults_empty() {
    assert!(AgentDefaults::default().model.is_none());
}

#[test]
fn test_empty_provider() {
    let provider = ProviderSettings::default();
    assert!(provider.api_key.is_none());
    assert!(provider.api_base.is_empty());
    assert!(provider.client_id.is_none());
    assert!(provider.default_currency.is_none());
    assert!(provider.models.is_empty());
    assert_eq!(provider.provider_type, ProviderType::Openai);
}

#[test]
fn test_provider_type_serialization() {
    assert_eq!(ProviderType::Openai.name(), "openai");
    assert_eq!(ProviderType::Anthropic.name(), "anthropic");
    assert_eq!(ProviderType::Gemini.name(), "gemini");
}

#[test]
fn test_provider_type_deserialization() {
    assert_eq!(ProviderType::from_name("openai"), Some(ProviderType::Openai));
    assert_eq!(ProviderType::from_name("anthropic"), Some(ProviderType::Anthropic));
    assert_eq!(ProviderType::from_name("gemini"), Some(ProviderType::Gemini));
}

#[test]
fn profiles_naming_unusable_providers_are_warned_about() {
    let registry = registry_with(vec![
        ("openai", ProviderSettings { api_key: Some("sk".to_string()), api_base: "https://a/v1".to_string(), ..Default::default() }),
        ("empty", ProviderSettings { api_key: None, api_base: "https://b/v1".to_string(), ..Default::default() }),
    ]);
    let profiles = vec![
        ("coder".to_string(), profile("openai", "m", None, None)),
        ("cheap".to_string(), profile("empty", "m", None, None)),
        ("ghost".to_string(), profile("nowhere", "m", None, None)),
    ];
    assert_eq!(
        registry.validate_model_profiles(&profiles),
        vec![
            "Model profile 'cheap' references unavailable provider 'empty'",
            "Model profile 'ghost' references unavailable provider 'nowhere'",
        ]
    );
}
