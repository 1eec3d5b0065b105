//! Provider configuration: per-model settings, the migration of the legacy
//! provider layout, and the registry that decides how a named provider is
//! built. Prices and temperatures are carried as the bit patterns of their
//! floating-point values: nothing here computes with them.

use vstd::prelude::*;
use crate::agent::{is_local_provider, provider_available, proxy_enabled, ModelProfile, ProviderType};
use crate::name_map::{lookup, NameMap};
use crate::ingest::{lemma_filter_nil, lemma_filter_step};
use crate::text::{str_eq, trimmed};

verus! {

/// Settings of one model of a provider.
#[derive(Debug)]
pub struct ModelSettings {
    /// `f64::to_bits` of the price per million input tokens.
    pub price_input_per_million_bits: Option<u64>,
    /// `f64::to_bits` of the price per million output tokens.
    pub price_output_per_million_bits: Option<u64>,
    pub currency: Option<String>,
    /// `f32::to_bits` of the sampling temperature.
    pub temperature_bits: Option<u32>,
    pub max_tokens: Option<u32>,
    pub max_iterations: Option<u32>,
    pub memory_window: Option<usize>,
    pub thinking_enabled: Option<bool>,
    pub streaming: Option<bool>,
}

/// A model's complete pricing: both prices (as bits) and a currency.
#[derive(Debug)]
pub struct Pricing {
    pub input_per_million_bits: u64,
    pub output_per_million_bits: u64,
    pub currency: String,
}

/// The currency a model's pricing is in: its own, else the provider's
/// default, else `USD`.
pub open spec fn pricing_currency(own: Option<String>, default_currency: Option<Seq<char>>) -> Seq<char> {
    match own {
        Some(c) => c@,
        None => match default_currency {
            Some(d) => d,
            None => "USD"@,
        },
    }
}

impl Default for ModelSettings {
    /// Settings with nothing set.
    fn default() -> (r: Self)
        ensures
            r.price_input_per_million_bits is None,
            r.price_output_per_million_bits is None,
            r.currency is None,
            r.temperature_bits is None,
            r.max_tokens is None,
            r.max_iterations is None,
            r.memory_window is None,
            r.thinking_enabled is None,
            r.streaming is None,
    {
        ModelSettings {
            price_input_per_million_bits: None,
            price_output_per_million_bits: None,
            currency: None,
            temperature_bits: None,
            max_tokens: None,
            max_iterations: None,
            memory_window: None,
            thinking_enabled: None,
            streaming: None,
        }
    }
}

impl ModelSettings {
    /// A copy of these settings.
    pub fn copied(&self) -> (r: Self)
        ensures
            r == *self,
    {
        ModelSettings {
            price_input_per_million_bits: self.price_input_per_million_bits,
            price_output_per_million_bits: self.price_output_per_million_bits,
            currency: match &self.currency {
                Some(c) => Some(c.clone()),
                None => None,
            },
            temperature_bits: self.temperature_bits,
            max_tokens: self.max_tokens,
            max_iterations: self.max_iterations,
            memory_window: self.memory_window,
            thinking_enabled: self.thinking_enabled,
            streaming: self.streaming,
        }
    }

    /// Whether both prices are set.
    pub fn has_pricing(&self) -> (r: bool)
        ensures
            r == (self.price_input_per_million_bits is Some
                && self.price_output_per_million_bits is Some),
    {
        self.price_input_per_million_bits.is_some() && self.price_output_per_million_bits.is_some()
    }

    /// The model's pricing when both prices are set, in its own currency,
    /// else `default_currency`, else `USD`.
    pub fn get_pricing(&self, default_currency: Option<&str>) -> (r: Option<Pricing>)
        ensures
            match (self.price_input_per_million_bits, self.price_output_per_million_bits) {
                (Some(i), Some(o)) => r matches Some(p) && p.input_per_million_bits == i
                    && p.output_per_million_bits == o && p.currency@ == pricing_currency(
                    self.currency,
                    match default_currency {
                        Some(d) => Some(d@),
                        None => None,
                    },
                ),
                _ => r is None,
            },
    {
        match (self.price_input_per_million_bits, self.price_output_per_million_bits) {
            (Some(i), Some(o)) => {
                let currency = match &self.currency {
                    Some(c) => c.clone(),
                    None => match default_currency {
                        Some(d) => d.to_owned(),
                        None => "USD".to_owned(),
                    },
                };
                Some(Pricing { input_per_million_bits: i, output_per_million_bits: o, currency })
            },
            _ => None,
        }
    }
}

/// A provider's configuration.
#[derive(Debug)]
pub struct ProviderSettings {
    pub provider_type: ProviderType,
    pub api_base: String,
    pub api_key: Option<String>,
    pub client_id: Option<String>,
    pub default_currency: Option<String>,
    pub models: NameMap<ModelSettings>,
    pub proxy_enabled: Option<bool>,
}

impl Default for ProviderSettings {
    /// The OpenAI protocol with no base URL, no credentials, no models and
    /// the proxy setting unset.
    fn default() -> (r: Self)
        ensures
            r.provider_type == ProviderType::Openai,
            r.api_base@.len() == 0,
            r.api_key is None,
            r.client_id is None,
            r.default_currency is None,
            r.models.entries_view().len() == 0,
            r.proxy_enabled is None,
    {
        ProviderSettings {
            provider_type: ProviderType::Openai,
            api_base: String::new(),
            api_key: None,
            client_id: None,
            default_currency: None,
            models: NameMap::new(),
            proxy_enabled: None,
        }
    }
}

/// Whether a model has thinking turned on.
pub open spec fn thinks(m: ModelSettings) -> bool {
    m.thinking_enabled == Some(true)
}

/// The text of an optional string.
pub open spec fn opt_view(o: Option<String>) -> Option<Seq<char>> {
    match o {
        Some(s) => Some(s@),
        None => None,
    }
}

/// Whether a provider registered as `name` with configuration `c` can be
/// used: a local provider always, a remote one with a non-blank API key.
pub open spec fn usable(name: Seq<char>, c: ProviderSettings) -> bool {
    is_local_provider(name) || match c.api_key {
        Some(k) => trimmed(k@).len() > 0,
        None => false,
    }
}

/// Whether `name` is configured in `configs` and usable.
pub open spec fn usable_in(configs: NameMap<ProviderSettings>, name: Seq<char>) -> bool {
    match configs.get_spec(name) {
        Some(c) => usable(name, c),
        None => false,
    }
}

impl ProviderSettings {
    /// Whether this provider goes through the environment's proxy.
    pub fn proxy_enabled(&self) -> (r: bool)
        ensures
            r == match self.proxy_enabled {
                Some(b) => b,
                None => true,
            },
    {
        proxy_enabled(self.proxy_enabled)
    }

    /// Whether any model of this provider has thinking turned on.
    pub fn supports_thinking(&self) -> (r: bool)
        ensures
            r == exists|i: int|
                0 <= i < self.models.entries_view().len() && thinks(
                    #[trigger] self.models.entries_view()[i].1,
                ),
    {
        let ghost es = self.models.entries_view();
        let mut i: usize = 0;
        while i < self.models.len()
            invariant
                es == self.models.entries_view(),
                0 <= i <= es.len(),
                forall|j: int| 0 <= j < i ==> !thinks(#[trigger] es[j].1),
            decreases es.len() - i,
        {
            if self.models.value_at(i).thinking_enabled == Some(true) {
                return true;
            }
            i = i + 1;
        }
        false
    }

    /// Whether thinking is on for the model named `model_name`: only when
    /// the model is configured with thinking turned on.
    pub fn thinking_enabled_for_model(&self, model_name: &str) -> (r: bool)
        ensures
            r == (self.models.get_spec(model_name@) matches Some(m) && thinks(m)),
    {
        match self.models.get(model_name) {
            Some(m) => m.thinking_enabled == Some(true),
            None => false,
        }
    }

    /// Whether this provider, registered as `provider_name`, can be used:
    /// a local provider always, a remote one only with a non-blank API key.
    pub fn is_available(&self, provider_name: &str) -> (r: bool)
        ensures
            r == (is_local_provider(provider_name@) || match self.api_key {
                Some(k) => trimmed(k@).len() > 0,
                None => false,
            }),
    {
        match &self.api_key {
            Some(k) => provider_available(provider_name, Some(k.as_str())),
            None => provider_available(provider_name, None),
        }
    }

    /// The settings of the model named `model_name`, if configured.
    pub fn get_model_config(&self, model_name: &str) -> (r: Option<&ModelSettings>)
        ensures
            match self.models.get_spec(model_name@) {
                Some(m) => r matches Some(x) && *x == m,
                None => r is None,
            },
    {
        self.models.get(model_name)
    }

    /// The pricing of the model named `model_name`: absent unless the model
    /// is configured with both prices; the provider's default currency
    /// stands in for a model without one.
    pub fn get_pricing_for_model(&self, model_name: &str) -> (r: Option<Pricing>)
        ensures
            match self.models.get_spec(model_name@) {
                Some(m) => match (m.price_input_per_million_bits, m.price_output_per_million_bits) {
                    (Some(i), Some(o)) => r matches Some(p) && p.input_per_million_bits == i
                        && p.output_per_million_bits == o && p.currency@ == pricing_currency(
                        m.currency,
                        opt_view(self.default_currency),
                    ),
                    _ => r is None,
                },
                None => r is None,
            },
    {
        match self.models.get(model_name) {
            Some(m) => match &self.default_currency {
                Some(d) => m.get_pricing(Some(d.as_str())),
                None => m.get_pricing(None),
            },
            None => None,
        }
    }
}

/// A provider configuration in the legacy layout: pricing and thinking may
/// sit at the provider level, and the base URL may be missing.
#[derive(Debug)]
pub struct LegacyProviderSettings {
    pub api_key: Option<String>,
    pub api_base: Option<String>,
    pub supports_thinking: Option<bool>,
    pub client_id: Option<String>,
    pub default_currency: Option<String>,
    pub price_input_per_million_bits: Option<u64>,
    pub price_output_per_million_bits: Option<u64>,
    pub currency: Option<String>,
    pub models: NameMap<ModelSettings>,
    pub provider_type: ProviderType,
    pub proxy_enabled: Option<bool>,
}

impl Default for LegacyProviderSettings {
    /// Nothing set, the OpenAI protocol.
    fn default() -> (r: Self)
        ensures
            r.api_key is None && r.api_base is None && r.supports_thinking is None,
            r.client_id is None && r.default_currency is None && r.currency is None,
            r.price_input_per_million_bits is None && r.price_output_per_million_bits is None,
            r.models.entries_view().len() == 0,
            r.provider_type == ProviderType::Openai,
            r.proxy_enabled is None,
    {
        LegacyProviderSettings {
            api_key: None,
            api_base: None,
            supports_thinking: None,
            client_id: None,
            default_currency: None,
            price_input_per_million_bits: None,
            price_output_per_million_bits: None,
            currency: None,
            models: NameMap::new(),
            provider_type: ProviderType::Openai,
            proxy_enabled: None,
        }
    }
}

/// The model entry that carries legacy provider-level pricing.
pub open spec fn legacy_default_model(l: LegacyProviderSettings) -> ModelSettings {
    ModelSettings {
        price_input_per_million_bits: l.price_input_per_million_bits,
        price_output_per_million_bits: l.price_output_per_million_bits,
        currency: l.currency,
        temperature_bits: None,
        max_tokens: None,
        max_iterations: None,
        memory_window: None,
        thinking_enabled: None,
        streaming: None,
    }
}

/// The legacy models before thinking is filled in: the provider-level
/// pricing becomes a `_default` model when both prices are set and no
/// model of that name exists.
pub open spec fn legacy_models_priced(l: LegacyProviderSettings, k: Seq<char>) -> Option<ModelSettings> {
    if k == "_default"@ && l.price_input_per_million_bits is Some
        && l.price_output_per_million_bits is Some && l.models.get_spec(k) is None {
        Some(legacy_default_model(l))
    } else {
        l.models.get_spec(k)
    }
}

/// A model with the legacy provider-level thinking flag filled in where
/// the model sets none.
pub open spec fn with_thinking(m: ModelSettings, supports_thinking: Option<bool>) -> ModelSettings {
    match (m.thinking_enabled, supports_thinking) {
        (None, Some(b)) => ModelSettings { thinking_enabled: Some(b), ..m },
        _ => m,
    }
}

/// A model value in an entry list with thinking filled in.
pub open spec fn fill_entry(e: (Seq<char>, ModelSettings), t: Option<bool>) -> (Seq<char>, ModelSettings) {
    (e.0, with_thinking(e.1, t))
}

proof fn lemma_lookup_fill(s: Seq<(Seq<char>, ModelSettings)>, t: Option<bool>, k: Seq<char>)
    ensures
        lookup(s.map_values(|e: (Seq<char>, ModelSettings)| fill_entry(e, t)), k) == match lookup(
            s,
            k,
        ) {
            Some(m) => Some(with_thinking(m, t)),
            None => None,
        },
    decreases s.len(),
{
    let f = |e: (Seq<char>, ModelSettings)| fill_entry(e, t);
    let ms = s.map_values(f);
    if s.len() > 0 {
        assert(ms.drop_last() =~= s.drop_last().map_values(f));
        lemma_lookup_fill(s.drop_last(), t, k);
    }
}

impl ProviderSettings {
    /// The current layout of a legacy configuration: the default currency
    /// is the explicit one, else the provider-level currency; provider-level
    /// pricing becomes a `_default` model (unless one exists); a
    /// provider-level thinking flag is copied to every model that sets none;
    /// a missing base URL is empty.
    pub fn from_legacy(legacy: LegacyProviderSettings) -> (r: ProviderSettings)
        ensures
            r.provider_type == legacy.provider_type,
            r.api_base@ == match legacy.api_base {
                Some(b) => b@,
                None => Seq::empty(),
            },
            opt_view(r.api_key) == opt_view(legacy.api_key),
            opt_view(r.client_id) == opt_view(legacy.client_id),
            opt_view(r.default_currency) == match legacy.default_currency {
                Some(d) => Some(d@),
                None => opt_view(legacy.currency),
            },
            r.proxy_enabled == legacy.proxy_enabled,
            forall|k: Seq<char>|
                #[trigger] r.models.get_spec(k) == match legacy_models_priced(legacy, k) {
                    Some(m) => Some(with_thinking(m, legacy.supports_thinking)),
                    None => None,
                },
    {
        let ghost l = legacy;
        let LegacyProviderSettings {
            api_key,
            api_base,
            supports_thinking,
            client_id,
            default_currency,
            price_input_per_million_bits,
            price_output_per_million_bits,
            currency,
            models,
            provider_type,
            proxy_enabled,
        } = legacy;
        let mut models = models;
        let default_currency = match default_currency {
            Some(d) => Some(d),
            None => match &currency {
                Some(c) => Some(c.clone()),
                None => None,
            },
        };
        assert(models == l.models);
        if price_input_per_million_bits.is_some() && price_output_per_million_bits.is_some()
            && !models.contains_key("_default") {
            let entry = ModelSettings {
                price_input_per_million_bits,
                price_output_per_million_bits,
                currency: match &currency {
                    Some(c) => Some(c.clone()),
                    None => None,
                },
                temperature_bits: None,
                max_tokens: None,
                max_iterations: None,
                memory_window: None,
                thinking_enabled: None,
                streaming: None,
            };
            assert(entry == legacy_default_model(l));
            models.insert("_default".to_owned(), entry);
            assert forall|k: Seq<char>| #[trigger] lookup(models.entries_view(), k)
                == legacy_models_priced(l, k) by {
                if k != "_default"@ {
                    assert(models.get_spec(k) == l.models.get_spec(k));
                }
            }
        } else {
            assert forall|k: Seq<char>| #[trigger] lookup(models.entries_view(), k)
                == legacy_models_priced(l, k) by {
                assert(models.get_spec(k) == l.models.get_spec(k));
            }
        }
        let ghost priced = models.entries_view();
        if let Some(t) = supports_thinking {
            let mut i: usize = 0;
            while i < models.len()
                invariant
                    supports_thinking == Some(t),
                    0 <= i <= models.entries_view().len(),
                    models.entries_view().len() == priced.len(),
                    forall|j: int|
                        0 <= j < i ==> #[trigger] models.entries_view()[j] == fill_entry(
                            priced[j],
                            supports_thinking,
                        ),
                    forall|j: int|
                        i <= j < priced.len() ==> #[trigger] models.entries_view()[j] == priced[j],
                decreases priced.len() - i,
            {
                let current = models.value_at(i);
                if current.thinking_enabled.is_none() {
                    let mut m = current.copied();
                    m.thinking_enabled = Some(t);
                    models.set_value(i, m);
                }
                i = i + 1;
            }
        }
        proof {
            let f = |e: (Seq<char>, ModelSettings)| fill_entry(e, supports_thinking);
            assert(models.entries_view() =~= priced.map_values(f));
            assert forall|k: Seq<char>| #[trigger] models.get_spec(k) == match legacy_models_priced(l, k) {
                Some(m) => Some(with_thinking(m, supports_thinking)),
                None => None,
            } by {
                lemma_lookup_fill(priced, supports_thinking, k);
            }
        }
        ProviderSettings {
            provider_type,
            api_base: match api_base {
                Some(b) => b,
                None => String::new(),
            },
            api_key,
            client_id,
            default_currency,
            models,
            proxy_enabled,
        }
    }
}

/// How a configured provider is built: an OpenAI-compatible client (the
/// Anthropic endpoint speaks the same protocol).
#[derive(Debug)]
pub struct ProviderBuild {
    pub name: String,
    pub api_base: String,
    pub api_key: String,
    pub default_model: String,
    pub proxy_enabled: bool,
}

/// Why a provider cannot be built.
#[derive(Debug, PartialEq, Eq)]
pub enum ProviderBuildError {
    NotFound(String),
    Unavailable(String),
    MissingApiBase(String),
    GeminiNotCompiled,
}

impl ProviderBuildError {
    /// The displayed message.
    pub fn message(&self) -> (r: String)
        ensures
            r@ == match self {
                ProviderBuildError::NotFound(n) => "Provider not found: "@ + n@,
                ProviderBuildError::Unavailable(n) => "Provider "@ + n@
                    + " is not available (missing API key)"@,
                ProviderBuildError::MissingApiBase(n) => "Provider '"@ + n@
                    + "' is missing required 'api_base' configuration. Please add 'api_base' to your provider config in ~/.gasket/config.yaml"@,
                ProviderBuildError::GeminiNotCompiled => "Gemini provider is not compiled in. Rebuild with --features provider-gemini"@,
            },
    {
        match self {
            ProviderBuildError::NotFound(n) => {
                let mut s = "Provider not found: ".to_owned();
                s.append(n.as_str());
                s
            },
            ProviderBuildError::Unavailable(n) => {
                let mut s = "Provider ".to_owned();
                s.append(n.as_str());
                s.append(" is not available (missing API key)");
                s
            },
            ProviderBuildError::MissingApiBase(n) => {
                let mut s = "Provider '".to_owned();
                s.append(n.as_str());
                s.append(
                    "' is missing required 'api_base' configuration. Please add 'api_base' to your provider config in ~/.gasket/config.yaml",
                );
                s
            },
            ProviderBuildError::GeminiNotCompiled => "Gemini provider is not compiled in. Rebuild with --features provider-gemini".to_owned(),
        }
    }
}

/// Configured providers by name, and the default provider named by the
/// agent defaults' model.
#[derive(Debug)]
pub struct ProviderRegistry {
    pub configs: NameMap<ProviderSettings>,
    pub default_provider: Option<String>,
}

/// The provider pairs as name texts and settings.
pub open spec fn pairs_view(ps: Seq<(String, ProviderSettings)>) -> Seq<(Seq<char>, ProviderSettings)> {
    ps.map_values(|p: (String, ProviderSettings)| (p.0@, p.1))
}

proof fn lemma_lookup_cons<V>(x: (Seq<char>, V), t: Seq<(Seq<char>, V)>, k: Seq<char>)
    ensures
        lookup(seq![x] + t, k) == match lookup(t, k) {
            Some(v) => Some(v),
            None => if x.0 == k {
                Some(x.1)
            } else {
                None
            },
        },
    decreases t.len(),
{
    if t.len() == 0 {
        assert(seq![x] + t =~= seq![x]);
        assert(seq![x].drop_last() =~= Seq::<(Seq<char>, V)>::empty());
    } else {
        assert((seq![x] + t).drop_last() =~= seq![x] + t.drop_last());
        lemma_lookup_cons(x, t.drop_last(), k);
    }
}

/// The names of the usable configured providers, in name order.
pub open spec fn available_names(configs: NameMap<ProviderSettings>) -> Seq<Seq<char>> {
    configs.entries_view().filter(|e: (Seq<char>, ProviderSettings)| usable_in(configs, e.0)).map_values(
        |e: (Seq<char>, ProviderSettings)| e.0,
    )
}

/// The warning about model profile `id` naming provider `provider`, which
/// is not usable.
pub open spec fn unavailable_profile_warning(id: Seq<char>, provider: Seq<char>) -> Seq<char> {
    "Model profile '"@ + id + "' references unavailable provider '"@ + provider + "'"@
}

/// The warnings for the profiles `ps` whose provider is not usable, in
/// order.
pub open spec fn profile_warnings(configs: NameMap<ProviderSettings>, ps: Seq<(String, ModelProfile)>) -> Seq<Seq<char>>
    decreases ps.len(),
{
    if ps.len() == 0 {
        Seq::empty()
    } else {
        let prev = profile_warnings(configs, ps.drop_last());
        let last = ps.last();
        if usable_in(configs, last.1.provider@) {
            prev
        } else {
            prev.push(unavailable_profile_warning(last.0@, last.1.provider@))
        }
    }
}

impl ProviderRegistry {
    /// A registry with no providers and no default.
    pub fn new() -> (r: Self)
        ensures
            r.configs.entries_view().len() == 0,
            r.default_provider is None,
    {
        ProviderRegistry { configs: NameMap::new(), default_provider: None }
    }

    /// The registry of the configured providers (a later pair of the same
    /// name wins), with the default provider taken from the default model
    /// (`provider/model` names its provider before the first `/`).
    pub fn from_config(providers: Vec<(String, ProviderSettings)>, default_model: Option<&str>) -> (r: Self)
        ensures
            forall|k: Seq<char>| #[trigger] r.configs.get_spec(k) == lookup(pairs_view(providers@), k),
            match default_model {
                Some(m) => r.default_provider matches Some(p) && p@ == crate::agent::default_provider_name(m@),
                None => r.default_provider is None,
            },
    {
        let ghost full = pairs_view(providers@);
        let mut rest = providers;
        let mut configs: NameMap<ProviderSettings> = NameMap::new();
        assert forall|k: Seq<char>| #[trigger] configs.get_spec(k) == lookup(
            full.subrange(full.len() as int, full.len() as int),
            k,
        ) by {
            assert(full.subrange(full.len() as int, full.len() as int).len() == 0);
        }
        while rest.len() > 0
            invariant
                full == pairs_view(providers@),
                rest.len() <= full.len(),
                pairs_view(rest@) == full.subrange(0, rest.len() as int),
                forall|k: Seq<char>| #[trigger] configs.get_spec(k) == lookup(
                    full.subrange(rest.len() as int, full.len() as int),
                    k,
                ),
            decreases rest.len(),
        {
            let ghost n = rest.len() as int;
            let ghost before = configs.entries_view();
            let ghost old_configs = configs.get_spec(full[n - 1].0);
            let ghost old_rest = rest@;
            assert(pairs_view(old_rest)[n - 1] == full[n - 1]);
            let (name, settings) = rest.pop().unwrap();
            assert(pairs_view(rest@) =~= full.subrange(0, n - 1));
            let ghost x = full[n - 1];
            assert(old_rest[n - 1] == (name, settings));
            assert(x == (name@, settings));
            let ghost t = full.subrange(n, full.len() as int);
            assert(full.subrange(n - 1, full.len() as int) =~= seq![x] + t);
            let ghost cfg_before = configs;
            if !configs.contains_key(name.as_str()) {
                configs.insert(name, settings);
            }
            assert forall|k: Seq<char>| #[trigger] configs.get_spec(k) == lookup(
                full.subrange(n - 1, full.len() as int),
                k,
            ) by {
                lemma_lookup_cons(x, t, k);
                assert(cfg_before.get_spec(k) == lookup(t, k));
            }
        }
        assert(full.subrange(0, full.len() as int) =~= full);
        ProviderRegistry { configs, default_provider: crate::agent::default_provider(default_model) }
    }

    /// Whether a provider of this name is configured.
    pub fn contains(&self, name: &str) -> (r: bool)
        ensures
            r == self.configs.get_spec(name@) is Some,
    {
        self.configs.contains_key(name)
    }

    /// Whether a provider of this name is configured and usable.
    pub fn is_available(&self, name: &str) -> (r: bool)
        ensures
            r == usable_in(self.configs, name@),
    {
        match self.configs.get(name) {
            Some(c) => c.is_available(name),
            None => false,
        }
    }

    /// The configured provider names, in name order.
    pub fn list_providers(&self) -> (r: Vec<String>)
        ensures
            r@.map_values(|s: String| s@) == self.configs.entries_view().map_values(
                |e: (Seq<char>, ProviderSettings)| e.0,
            ),
    {
        let ghost es = self.configs.entries_view();
        let mut out: Vec<String> = Vec::new();
        let mut i: usize = 0;
        while i < self.configs.len()
            invariant
                es == self.configs.entries_view(),
                0 <= i <= es.len(),
                out@.map_values(|s: String| s@) == es.take(i as int).map_values(
                    |e: (Seq<char>, ProviderSettings)| e.0,
                ),
            decreases es.len() - i,
        {
            let ghost before = out@;
            let name = self.configs.name_at(i).clone();
            assert(name@ == es[i as int].0);
            out.push(name);
            assert(es.take(i + 1) =~= es.take(i as int).push(es[i as int]));
            assert(out@.map_values(|s: String| s@) =~= before.map_values(|s: String| s@).push(name@));
            assert(es.take(i + 1).map_values(|e: (Seq<char>, ProviderSettings)| e.0) =~= es.take(
                i as int,
            ).map_values(|e: (Seq<char>, ProviderSettings)| e.0).push(es[i as int].0));
            i = i + 1;
        }
        assert(es.take(es.len() as int) =~= es);
        out
    }

    /// The configured provider names that are usable, in name order.
    pub fn list_available_providers(&self) -> (r: Vec<String>)
        ensures
            r@.map_values(|s: String| s@) == available_names(self.configs),
    {
        let ghost es = self.configs.entries_view();
        let ghost f = |e: (Seq<char>, ProviderSettings)| usable_in(self.configs, e.0);
        let mut out: Vec<String> = Vec::new();
        let mut i: usize = 0;
        proof {
            lemma_filter_nil(es.take(0), f);
        }
        while i < self.configs.len()
            invariant
                es == self.configs.entries_view(),
                f == (|e: (Seq<char>, ProviderSettings)| usable_in(self.configs, e.0)),
                0 <= i <= es.len(),
                out@.map_values(|s: String| s@) == es.take(i as int).filter(f).map_values(
                    |e: (Seq<char>, ProviderSettings)| e.0,
                ),
            decreases es.len() - i,
        {
            let ghost before = out@;
            proof {
                lemma_filter_step(es.take(i as int), f, es[i as int]);
                assert(es.take(i + 1) =~= es.take(i as int).push(es[i as int]));
            }
            let name = self.configs.name_at(i);
            let ok = self.is_available(name.as_str());
            if ok {
                out.push(name.clone());
                assert(out@.map_values(|s: String| s@) =~= before.map_values(|s: String| s@).push(
                    es[i as int].0,
                ));
                assert(es.take(i as int).filter(f).push(es[i as int]).map_values(
                    |e: (Seq<char>, ProviderSettings)| e.0,
                ) =~= es.take(i as int).filter(f).map_values(|e: (Seq<char>, ProviderSettings)| e.0).push(
                    es[i as int].0,
                ));
            }
            i = i + 1;
        }
        assert(es.take(es.len() as int) =~= es);
        out
    }

    /// The warnings about model profiles that name a provider that is not
    /// usable, for the profiles `(id, profile)` in the order given (see
    /// [`profile_warnings`]); the caller logs them.
    pub fn validate_model_profiles(&self, profiles: &Vec<(String, ModelProfile)>) -> (r: Vec<String>)
        ensures
            r@.map_values(|s: String| s@) == profile_warnings(self.configs, profiles@),
    {
        let mut out: Vec<String> = Vec::new();
        let mut i: usize = 0;
        while i < profiles.len()
            invariant
                0 <= i <= profiles.len(),
                out@.map_values(|s: String| s@) == profile_warnings(self.configs, profiles@.take(i as int)),
            decreases profiles.len() - i,
        {
            let ghost before = out@;
            assert(profiles@.take(i + 1).drop_last() =~= profiles@.take(i as int));
            let (id, profile) = (&profiles[i].0, &profiles[i].1);
            if !self.is_available(profile.provider.as_str()) {
                let mut w = "Model profile '".to_owned();
                w.append(id.as_str());
                w.append("' references unavailable provider '");
                w.append(profile.provider.as_str());
                w.append("'");
                out.push(w);
                assert(out@.map_values(|s: String| s@) =~= before.map_values(|s: String| s@).push(
                    unavailable_profile_warning(id@, profile.provider@),
                ));
            }
            i = i + 1;
        }
        assert(profiles@.take(profiles.len() as int) =~= profiles@);
        out
    }

    /// The default provider's name, if the defaults name a model.
    pub fn get_default_provider(&self) -> (r: Option<&String>)
        ensures
            match self.default_provider {
                Some(p) => r matches Some(x) && *x == p,
                None => r is None,
            },
    {
        match &self.default_provider {
            Some(p) => Some(p),
            None => None,
        }
    }

    /// Whether no provider is configured.
    pub fn is_empty(&self) -> (r: bool)
        ensures
            r == (self.configs.entries_view().len() == 0),
    {
        self.configs.is_empty()
    }

    /// The number of configured providers.
    pub fn len(&self) -> (r: usize)
        ensures
            r == self.configs.entries_view().len(),
    {
        self.configs.len()
    }

    /// The configuration of the named provider.
    pub fn get_config(&self, name: &str) -> (r: Option<&ProviderSettings>)
        ensures
            match self.configs.get_spec(name@) {
                Some(c) => r matches Some(x) && *x == c,
                None => r is None,
            },
    {
        self.configs.get(name)
    }

    /// How the named provider is built: refused when it is not configured,
    /// not usable (no API key), or has no base URL, and for the Gemini
    /// protocol, whose client is not part of this build; otherwise an
    /// OpenAI-compatible client with the configured base URL, the API key
    /// (empty when none), the model `default` and the proxy setting.
    pub fn provider_build(&self, name: &str) -> (r: Result<ProviderBuild, ProviderBuildError>)
        ensures
            match self.configs.get_spec(name@) {
                None => r matches Err(ProviderBuildError::NotFound(n)) && n@ == name@,
                Some(c) => if !usable(name@, c) {
                    r matches Err(ProviderBuildError::Unavailable(n)) && n@ == name@
                } else if c.api_base@.len() == 0 {
                    r matches Err(ProviderBuildError::MissingApiBase(n)) && n@ == name@
                } else if c.provider_type == ProviderType::Gemini {
                    r matches Err(ProviderBuildError::GeminiNotCompiled)
                } else {
                    r matches Ok(b) && b.name@ == name@ && b.api_base@ == c.api_base@
                        && b.api_key@ == match c.api_key {
                        Some(k) => k@,
                        None => Seq::empty(),
                    } && b.default_model@ == "default"@ && b.proxy_enabled == match c.proxy_enabled {
                        Some(p) => p,
                        None => true,
                    }
                },
            },
    {
        let c = match self.configs.get(name) {
            Some(c) => c,
            None => return Err(ProviderBuildError::NotFound(name.to_owned())),
        };
        if !c.is_available(name) {
            return Err(ProviderBuildError::Unavailable(name.to_owned()));
        }
        if c.api_base.as_str().unicode_len() == 0 {
            return Err(ProviderBuildError::MissingApiBase(name.to_owned()));
        }
        match c.provider_type {
            ProviderType::Gemini => Err(ProviderBuildError::GeminiNotCompiled),
            _ => Ok(
                ProviderBuild {
                    name: name.to_owned(),
                    api_base: c.api_base.clone(),
                    api_key: match &c.api_key {
                        Some(k) => k.clone(),
                        None => String::new(),
                    },
                    default_model: "default".to_owned(),
                    proxy_enabled: c.proxy_enabled(),
                },
            ),
        }
    }
}

/// The client implementation a provider name selects.
#[derive(Debug, Clone, Copy, PartialEq, Eq, Structural)]
pub enum RigKind {
    Anthropic,
    DeepSeek,
    Zhipu,
    Ollama,
    OpenRouter,
    /// Any other name: an OpenAI-compatible client.
    OpenAiCompatible,
}

/// The implementation for a provider name.
pub open spec fn rig_kind_of(name: Seq<char>) -> RigKind {
    if name == "anthropic"@ {
        RigKind::Anthropic
    } else if name == "deepseek"@ {
        RigKind::DeepSeek
    } else if name == "zhipu"@ {
        RigKind::Zhipu
    } else if name == "ollama"@ {
        RigKind::Ollama
    } else if name == "openrouter"@ {
        RigKind::OpenRouter
    } else {
        RigKind::OpenAiCompatible
    }
}

/// The implementation for a provider name.
pub fn rig_kind(name: &str) -> (r: RigKind)
    ensures
        r == rig_kind_of(name@),
{
    if str_eq(name, "anthropic") {
        RigKind::Anthropic
    } else if str_eq(name, "deepseek") {
        RigKind::DeepSeek
    } else if str_eq(name, "zhipu") {
        RigKind::Zhipu
    } else if str_eq(name, "ollama") {
        RigKind::Ollama
    } else if str_eq(name, "openrouter") {
        RigKind::OpenRouter
    } else {
        RigKind::OpenAiCompatible
    }
}

/// Every provider with a dedicated client is routed to that client, and only
/// its own name is: `anthropic`, `deepseek`, `zhipu`, `ollama` and
/// `openrouter` each select their client; every other name selects the
/// OpenAI-compatible one.
pub proof fn lemma_dedicated_clients(name: Seq<char>)
    ensures
        (rig_kind_of(name) == RigKind::Anthropic) <==> name == "anthropic"@,
        (rig_kind_of(name) == RigKind::DeepSeek) <==> name == "deepseek"@,
        (rig_kind_of(name) == RigKind::Zhipu) <==> name == "zhipu"@,
        (rig_kind_of(name) == RigKind::Ollama) <==> name == "ollama"@,
        (rig_kind_of(name) == RigKind::OpenRouter) <==> name == "openrouter"@,
        (rig_kind_of(name) == RigKind::OpenAiCompatible) <==> (name != "anthropic"@ && name != "deepseek"@
            && name != "zhipu"@ && name != "ollama"@ && name != "openrouter"@),
{
    reveal_strlit("anthropic");
    reveal_strlit("deepseek");
    reveal_strlit("zhipu");
    reveal_strlit("ollama");
    reveal_strlit("openrouter");
    // The five names differ in length, so no two are equal.
    assert("anthropic"@.len() == 9 && "deepseek"@.len() == 8 && "zhipu"@.len() == 5);
    assert("ollama"@.len() == 6 && "openrouter"@.len() == 10);
}

/// `str::to_uppercase`'s result, a function of the text alone.
pub uninterp spec fn uppercase(s: Seq<char>) -> Seq<char>;

/// `str::to_uppercase`: the text with every character mapped to its
/// Unicode uppercase form; named by [`uppercase`].
#[verifier::external_body]
fn to_uppercase(s: &str) -> (r: String)
    ensures
        r@ == uppercase(s@),
{
    s.to_uppercase()
}

/// The environment variable an API key falls back to, by provider name;
/// none for the local Ollama, which needs no key.
pub open spec fn key_env_var_of(name: Seq<char>) -> Option<Seq<char>> {
    match rig_kind_of(name) {
        RigKind::Anthropic => Some("ANTHROPIC_API_KEY"@),
        RigKind::DeepSeek => Some("DEEPSEEK_API_KEY"@),
        RigKind::Zhipu => Some("ZHIPU_API_KEY"@),
        RigKind::Ollama => None,
        RigKind::OpenRouter => Some("OPENROUTER_API_KEY"@),
        RigKind::OpenAiCompatible => Some(uppercase(name) + "_API_KEY"@),
    }
}

/// The environment variable an API key falls back to (see
/// [`key_env_var_of`]).
pub fn key_env_var(name: &str) -> (r: Option<String>)
    ensures
        opt_view(r) == key_env_var_of(name@),
{
    match rig_kind(name) {
        RigKind::Anthropic => Some("ANTHROPIC_API_KEY".to_owned()),
        RigKind::DeepSeek => Some("DEEPSEEK_API_KEY".to_owned()),
        RigKind::Zhipu => Some("ZHIPU_API_KEY".to_owned()),
        RigKind::Ollama => None,
        RigKind::OpenRouter => Some("OPENROUTER_API_KEY".to_owned()),
        RigKind::OpenAiCompatible => {
            let mut v = to_uppercase(name);
            v.append("_API_KEY");
            Some(v)
        },
    }
}

/// Each provider's key falls back to its own variable: `ANTHROPIC_API_KEY`,
/// `DEEPSEEK_API_KEY`, `ZHIPU_API_KEY` and `OPENROUTER_API_KEY` for the
/// providers with dedicated clients, none for Ollama alone, and the
/// uppercased name followed by `_API_KEY` for every other provider.
pub proof fn lemma_key_variables(name: Seq<char>)
    ensures
        name == "anthropic"@ ==> key_env_var_of(name) == Some("ANTHROPIC_API_KEY"@),
        name == "deepseek"@ ==> key_env_var_of(name) == Some("DEEPSEEK_API_KEY"@),
        name == "zhipu"@ ==> key_env_var_of(name) == Some("ZHIPU_API_KEY"@),
        name == "openrouter"@ ==> key_env_var_of(name) == Some("OPENROUTER_API_KEY"@),
        key_env_var_of(name) is None <==> name == "ollama"@,
        (name != "anthropic"@ && name != "deepseek"@ && name != "zhipu"@ && name != "ollama"@ && name
            != "openrouter"@) ==> key_env_var_of(name) == Some(uppercase(name) + "_API_KEY"@),
{
    lemma_dedicated_clients(name);
}

/// The endpoint an OpenAI-compatible provider uses: the configured one,
/// else the known endpoint of `openai`, `tencent` or `gemini`, else
/// OpenAI's.
pub open spec fn openai_compatible_url(name: Seq<char>, base_url: Option<Seq<char>>) -> Seq<char> {
    match base_url {
        Some(u) => u,
        None => if name == "tencent"@ {
            "https://api.hunyuan.tencentcloud.com/v1"@
        } else if name == "gemini"@ {
            "https://generativelanguage.googleapis.com/v1beta/openapi"@
        } else {
            "https://api.openai.com/v1"@
        },
    }
}

/// How a client for a provider is built.
#[derive(Debug)]
pub struct RigPlan {
    pub kind: RigKind,
    /// The API key; absent only for Ollama, which takes none.
    pub api_key: Option<String>,
    pub model: String,
    /// The endpoint; for an OpenAI-compatible provider always set.
    pub base_url: Option<String>,
}

/// How to build the client for provider `name`: the key is `api_key`, else
/// `env_key` (the value of [`key_env_var`]'s variable); every provider but
/// Ollama needs one (`None` without). Ollama ignores keys. The configured
/// endpoint is passed on; an OpenAI-compatible provider gets the endpoint
/// of [`openai_compatible_url`].
pub fn rig_plan(
    name: &str,
    api_key: Option<String>,
    env_key: Option<String>,
    model: &str,
    base_url: Option<String>,
) -> (r: Option<RigPlan>)
    ensures
        ({
            let key = match api_key {
                Some(k) => Some(k@),
                None => opt_view(env_key),
            };
            let kind = rig_kind_of(name@);
            if kind == RigKind::Ollama {
                r matches Some(p) && p.kind == kind && p.api_key is None && p.model@ == model@
                    && opt_view(p.base_url) == opt_view(base_url)
            } else if key is None {
                r is None
            } else if kind == RigKind::OpenAiCompatible {
                r matches Some(p) && p.kind == kind && opt_view(p.api_key) == key && p.model@
                    == model@ && opt_view(p.base_url) == Some(
                    openai_compatible_url(name@, opt_view(base_url)),
                )
            } else {
                r matches Some(p) && p.kind == kind && opt_view(p.api_key) == key && p.model@
                    == model@ && opt_view(p.base_url) == opt_view(base_url)
            }
        }),
{
    let kind = rig_kind(name);
    if kind == RigKind::Ollama {
        return Some(RigPlan { kind, api_key: None, model: model.to_owned(), base_url });
    }
    let key = match api_key {
        Some(k) => k,
        None => match env_key {
            Some(k) => k,
            None => return None,
        },
    };
    if kind == RigKind::OpenAiCompatible {
        let url = match base_url {
            Some(u) => u,
            None => if str_eq(name, "tencent") {
                "https://api.hunyuan.tencentcloud.com/v1".to_owned()
            } else if str_eq(name, "gemini") {
                "https://generativelanguage.googleapis.com/v1beta/openapi".to_owned()
            } else {
                "https://api.openai.com/v1".to_owned()
            },
        };
        Some(RigPlan { kind, api_key: Some(key), model: model.to_owned(), base_url: Some(url) })
    } else {
        Some(RigPlan { kind, api_key: Some(key), model: model.to_owned(), base_url })
    }
}

} // verus!