//! The configuration source and cache: which source the environment
//! selects, what time-to-live applies, and the one-slot cache with its
//! stale-on-error fallback. Fetching itself is network work done by the
//! caller; every decision around it is made here.

use vstd::prelude::*;

use crate::config::{
    parse_flags, spec_config_valid, spec_empty_config, spec_parse_flags, FlagConfig,
    SpecFlagConfig,
};
use crate::json::JsonValue;
use crate::json_text::spec_parse_number;

verus! {

/// Where the configuration comes from.
#[derive(Clone, Copy, Debug, PartialEq, Eq, Structural)]
pub enum ConfigSource {
    /// The local application-configuration endpoint.
    AppConfig,
    /// The parameter store.
    ParameterStore,
    /// No source is configured; the configuration is empty.
    NoSource,
}

/// Whether an optional environment value is set and non-empty.
pub open spec fn spec_env_set(v: Option<Seq<char>>) -> bool {
    match v {
        Some(s) => s.len() > 0,
        None => false,
    }
}

/// The source the environment selects: the application-configuration
/// endpoint when its configuration name is set, else the parameter store
/// when a parameter name is set, else none.
pub open spec fn spec_select_source(
    appconfig_configuration: Option<Seq<char>>,
    injection_param: Option<Seq<char>>,
) -> ConfigSource {
    if spec_env_set(appconfig_configuration) {
        ConfigSource::AppConfig
    } else if spec_env_set(injection_param) {
        ConfigSource::ParameterStore
    } else {
        ConfigSource::NoSource
    }
}

/// The abstraction of an optional environment string.
pub open spec fn spec_opt_str_view(v: Option<&String>) -> Option<Seq<char>> {
    match v {
        Some(s) => Some(s@),
        None => None,
    }
}

/// The configuration source the two environment values select.
pub fn select_source(appconfig_configuration: Option<&String>, injection_param: Option<&String>) -> (
    r: ConfigSource)
    ensures
        r == spec_select_source(
            spec_opt_str_view(appconfig_configuration),
            spec_opt_str_view(injection_param),
        ),
{
    let appconfig = match appconfig_configuration {
        Some(s) => s.as_str().unicode_len() > 0,
        None => false,
    };
    if appconfig {
        ConfigSource::AppConfig
    } else {
        let param = match injection_param {
            Some(s) => s.as_str().unicode_len() > 0,
            None => false,
        };
        if param {
            ConfigSource::ParameterStore
        } else {
            ConfigSource::NoSource
        }
    }
}

/// The stock time-to-live, in milliseconds: one minute.
pub const DEFAULT_TTL_MS: u64 = 60000;

/// The chosen time-to-live and what drove the choice.
pub struct TtlChoice {
    /// The time-to-live, in milliseconds.
    pub ttl_ms: u64,
    /// Whether the override was absent or unusable and the stock value (or
    /// zero, for the application-configuration source) was used.
    pub used_default: bool,
    /// Whether a positive override stands beside the already-caching
    /// application-configuration source, which deserves a warning.
    pub appconfig_warning: bool,
}

/// The time-to-live the environment selects, in milliseconds. The override
/// is read as decimal seconds, truncated to milliseconds; the
/// application-configuration source defaults to no caching of its own.
pub open spec fn spec_cache_ttl_ms(env_value: Option<Seq<char>>, appconfig: bool) -> u64 {
    if !spec_env_set(env_value) {
        if appconfig {
            0
        } else {
            DEFAULT_TTL_MS
        }
    } else {
        let s = env_value->0;
        match spec_parse_number(s, 0) {
            Some(kq) => if kq.1 == s.len() && kq.0 >= 0 {
                kq.0 as u64
            } else {
                DEFAULT_TTL_MS
            },
            None => DEFAULT_TTL_MS,
        }
    }
}

/// The time-to-live the environment's override selects, with the stock
/// value where the override is absent or unusable.
pub fn cache_ttl_ms(env_value: Option<&String>, appconfig: bool) -> (r: TtlChoice)
    ensures
        r.ttl_ms == spec_cache_ttl_ms(spec_opt_str_view(env_value), appconfig),
        r.appconfig_warning == (appconfig && r.ttl_ms > 0),
{
    match env_value {
        Some(s) if s.as_str().unicode_len() > 0 => {
            let cs = crate::text::chars_of(s.as_str());
            match crate::json_text::parse_number_at(&cs, 0) {
                Some((k, q)) => {
                    if q == cs.len() && k >= 0 {
                        let ttl = k as u64;
                        TtlChoice {
                            ttl_ms: ttl,
                            used_default: false,
                            appconfig_warning: appconfig && ttl > 0,
                        }
                    } else {
                        TtlChoice {
                            ttl_ms: DEFAULT_TTL_MS,
                            used_default: true,
                            appconfig_warning: appconfig,
                        }
                    }
                },
                None => TtlChoice {
                    ttl_ms: DEFAULT_TTL_MS,
                    used_default: true,
                    appconfig_warning: appconfig,
                },
            }
        },
        _ => {
            if appconfig {
                TtlChoice { ttl_ms: 0, used_default: true, appconfig_warning: false }
            } else {
                TtlChoice { ttl_ms: DEFAULT_TTL_MS, used_default: true, appconfig_warning: false }
            }
        },
    }
}

/// The one cache slot: the last accepted configuration and when it was
/// stored.
struct CacheEntry {
    /// The configuration last accepted.
    config: FlagConfig,
    /// When it was stored, in epoch milliseconds.
    fetched_at_ms: u64,
}

/// The process-wide configuration cache: at most one entry, and only ever a
/// configuration that passed validation.
pub struct ConfigCache {
    /// The slot; empty until a fetch succeeds.
    entry: Option<CacheEntry>,
}

/// The abstraction of the cache: the stored configuration and its time.
pub closed spec fn spec_cache_view(c: ConfigCache) -> Option<(SpecFlagConfig, u64)> {
    match c.entry {
        Some(e) => Some((e.config@, e.fetched_at_ms)),
        None => None,
    }
}

/// Whether a cache entry stored at `fetched_at_ms` is still fresh at
/// `now_ms` under `ttl_ms`: the time-to-live is positive and less time than
/// it has passed.
pub open spec fn spec_cache_fresh(fetched_at_ms: u64, now_ms: u64, ttl_ms: u64) -> bool {
    ttl_ms > 0 && (if now_ms >= fetched_at_ms {
        now_ms - fetched_at_ms
    } else {
        0
    }) < ttl_ms
}

impl ConfigCache {
    /// Every configuration the slot ever holds passed its validation: what
    /// the stale-on-error fallback hands out is as checked as a fresh one.
    #[verifier::type_invariant]
    spec fn wf(self) -> bool {
        match self.entry {
            Some(e) => spec_config_valid(e.config@),
            None => true,
        }
    }

    /// An empty cache.
    pub fn new() -> (r: Self)
        ensures
            spec_cache_view(r) is None,
    {
        ConfigCache { entry: None }
    }

    /// The cached configuration, when an entry exists and is still fresh;
    /// anything handed out passed validation.
    pub fn cached(&self, now_ms: u64, ttl_ms: u64) -> (r: Option<&FlagConfig>)
        ensures
            match r {
                Some(c) => ({
                    &&& spec_cache_view(*self) is Some
                    &&& spec_cache_fresh((spec_cache_view(*self)->0).1, now_ms, ttl_ms)
                    &&& c@ == (spec_cache_view(*self)->0).0
                    &&& spec_config_valid(c@)
                }),
                None => !(spec_cache_view(*self) is Some && spec_cache_fresh(
                    (spec_cache_view(*self)->0).1,
                    now_ms,
                    ttl_ms,
                )),
            },
    {
        proof {
            use_type_invariant(self);
        }
        match &self.entry {
            Some(e) => {
                let elapsed: u64 = if now_ms >= e.fetched_at_ms {
                    now_ms - e.fetched_at_ms
                } else {
                    0
                };
                if ttl_ms > 0 && elapsed < ttl_ms {
                    Some(&e.config)
                } else {
                    None
                }
            },
            None => None,
        }
    }

    /// Accepts the outcome of a fetch. A fetched document replaces the
    /// entry with its parsed configuration; a failed fetch falls back to
    /// the stored configuration, however stale, or to the empty one. Either
    /// way the returned configuration passed validation.
    pub fn accept_fetch(&mut self, fetched: Option<&JsonValue>, now_ms: u64) -> (r: FlagConfig)
        ensures
            match fetched {
                Some(raw) => ({
                    &&& r@ == spec_parse_flags(raw@)
                    &&& spec_cache_view(*final(self)) == Some((spec_parse_flags(raw@), now_ms))
                }),
                None => ({
                    &&& spec_cache_view(*final(self)) == spec_cache_view(*old(self))
                    &&& r@ == (match spec_cache_view(*old(self)) {
                        Some(e) => e.0,
                        None => spec_empty_config(),
                    })
                }),
            },
            spec_config_valid(r@),
    {
        proof {
            use_type_invariant(&*self);
        }
        match fetched {
            Some(raw) => {
                let config = parse_flags(raw);
                proof {
                    crate::config::lemma_parse_flags_valid(raw@);
                }
                let copy = config.duplicate();
                self.entry = Some(CacheEntry { config, fetched_at_ms: now_ms });
                copy
            },
            None => {
                match &self.entry {
                    Some(e) => e.config.duplicate(),
                    None => {
                        let r = FlagConfig::empty();
                        proof {
                            assert(spec_config_valid(r@));
                        }
                        r
                    },
                }
            },
        }
    }
}

/// An empty configuration resolves to no failures at all.
pub proof fn lemma_empty_config_resolves_empty()
    ensures
        crate::config::spec_resolve(spec_empty_config()) == Seq::<
            crate::config::SpecResolvedFailure,
        >::empty(),
{
    assert(crate::config::spec_resolve(spec_empty_config()) =~= Seq::<
        crate::config::SpecResolvedFailure,
    >::empty());
}

} // verus!
