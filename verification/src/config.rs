//! The user's configuration: the active provider, each configured
//! provider's settings, and the transcript budgets.
use vstd::prelude::*;
use crate::provider::{law_parse_names_roundtrip, ProviderKind};
use crate::text::{chars_eq, chars_of, push_all, push_str, string_from_chars};

verus! {

/// The settings of one provider as plain values: (base URL, model, API key).
pub type ProviderSettings = (Seq<char>, Seq<char>, Option<Seq<char>>);

pub open spec fn opt_view(o: Option<String>) -> Option<Seq<char>> {
    match o {
        Some(s) => Some(s@),
        None => None,
    }
}

#[derive(Debug)]
pub struct ProviderConfig {
    pub base_url: String,
    pub model: String,
    pub api_key: Option<String>,
}

impl View for ProviderConfig {
    type V = ProviderSettings;

    open spec fn view(&self) -> ProviderSettings {
        (self.base_url@, self.model@, opt_view(self.api_key))
    }
}

pub fn copy_string(s: &String) -> (r: String)
    ensures
        r@ == s@,
{
    s.clone()
}

pub fn copy_opt_string(s: &Option<String>) -> (r: Option<String>)
    ensures
        opt_view(r) == opt_view(*s),
{
    match s {
        Some(v) => Some(v.clone()),
        None => None,
    }
}

impl ProviderConfig {
    /// A copy with the same settings.
    pub fn duplicate(&self) -> (r: ProviderConfig)
        ensures
            r@ == self@,
    {
        ProviderConfig {
            base_url: copy_string(&self.base_url),
            model: copy_string(&self.model),
            api_key: copy_opt_string(&self.api_key),
        }
    }
}

#[derive(Debug, Clone, Copy, PartialEq, Eq, Structural)]
pub struct TranscriptConfig {
    pub max_chars_per_entry: usize,
    pub max_total_chars: usize,
}

impl Default for TranscriptConfig {
    fn default() -> (r: TranscriptConfig)
        ensures
            r.max_chars_per_entry == 4000,
            r.max_total_chars == 32000,
    {
        TranscriptConfig { max_chars_per_entry: 4000, max_total_chars: 32_000 }
    }
}

/// The (name, settings) values of a list of pairs.
pub open spec fn pair_views(p: Seq<(String, ProviderConfig)>) -> Seq<(Seq<char>, ProviderSettings)> {
    p.map_values(|e: (String, ProviderConfig)| (e.0@, e.1@))
}

/// The map that storing `p` in order gives: a later pair replaces an
/// earlier one with the same name.
pub open spec fn pairs_map(p: Seq<(Seq<char>, ProviderSettings)>) -> Map<Seq<char>, ProviderSettings>
    decreases p.len(),
{
    if p.len() == 0 {
        Map::empty()
    } else {
        pairs_map(p.drop_last()).insert(p.last().0, p.last().1)
    }
}

/// Provider settings by provider name; no name occurs twice.
#[derive(Debug)]
pub struct ProviderMap {
    entries: Vec<(String, ProviderConfig)>,
}

impl ProviderMap {
    #[verifier::type_invariant]
    pub closed spec fn keys_unique(self) -> bool {
        forall|i: int, j: int|
            0 <= i < j < self.entries@.len() ==> #[trigger] self.entries@[i].0@
                != #[trigger] self.entries@[j].0@
    }

    pub closed spec fn has_key_at(self, k: Seq<char>, i: int) -> bool {
        0 <= i < self.entries@.len() && self.entries@[i].0@ == k
    }

    /// The settings stored under each name.
    pub closed spec fn spec_map(self) -> Map<Seq<char>, ProviderSettings> {
        Map::new(
            |k: Seq<char>| exists|i: int| #[trigger] self.has_key_at(k, i),
            |k: Seq<char>| self.entries@[choose|i: int| #[trigger] self.has_key_at(k, i)].1@,
        )
    }

    proof fn lemma_at(self, k: Seq<char>, i: int)
        requires
            self.keys_unique(),
            self.has_key_at(k, i),
        ensures
            self.spec_map().contains_key(k),
            self.spec_map()[k] == self.entries@[i].1@,
    {
        let j = choose|j: int| #[trigger] self.has_key_at(k, j);
        assert(self.has_key_at(k, j));
        if j < i {
            assert(self.entries@[j].0@ != self.entries@[i].0@);
        }
        if i < j {
            assert(self.entries@[i].0@ != self.entries@[j].0@);
        }
    }

    /// An empty map.
    pub fn new() -> (r: ProviderMap)
        ensures
            r@ == Map::<Seq<char>, ProviderSettings>::empty(),
    {
        let r = ProviderMap { entries: Vec::new() };
        assert(r.spec_map() =~= Map::<Seq<char>, ProviderSettings>::empty());
        r
    }

    pub fn len(&self) -> (n: usize)
        ensures
            n == self@.dom().len(),
    {
        proof {
            use_type_invariant(self);
            self.lemma_dom_len();
        }
        self.entries.len()
    }

    proof fn lemma_dom_len(self)
        requires
            self.keys_unique(),
        ensures
            self.spec_map().dom().finite(),
            self.spec_map().dom().len() == self.entries@.len(),
        decreases self.entries@.len(),
    {
        let keys = self.entries@.map_values(|e: (String, ProviderConfig)| e.0@);
        assert(keys.no_duplicates()) by {
            assert forall|i: int, j: int| 0 <= i < keys.len() && 0 <= j < keys.len() && i != j implies keys[i]
                != keys[j] by {
                if i < j {
                    assert(self.entries@[i].0@ != self.entries@[j].0@);
                } else {
                    assert(self.entries@[j].0@ != self.entries@[i].0@);
                }
            }
        }
        assert(self.spec_map().dom() =~= keys.to_set()) by {
            assert forall|k: Seq<char>| self.spec_map().dom().contains(k) implies keys.to_set().contains(k) by {
                let i = choose|i: int| #[trigger] self.has_key_at(k, i);
                assert(keys[i] == k);
            }
            assert forall|k: Seq<char>| keys.to_set().contains(k) implies self.spec_map().dom().contains(k) by {
                let i = choose|i: int| 0 <= i < keys.len() && keys[i] == k;
                assert(self.has_key_at(k, i));
            }
        }
        keys.unique_seq_to_set();
    }

    /// The settings stored under `key`.
    pub fn get(&self, key: &str) -> (r: Option<&ProviderConfig>)
        ensures
            match r {
                Some(c) => self@.contains_key(key@) && c@ == self@[key@],
                None => !self@.contains_key(key@),
            },
    {
        proof {
            use_type_invariant(self);
        }
        let k = chars_of(key);
        let mut i: usize = 0;
        while i < self.entries.len()
            invariant
                0 <= i <= self.entries@.len(),
                self.keys_unique(),
                k@ == key@,
                forall|j: int| 0 <= j < i ==> self.entries@[j].0@ != key@,
            decreases self.entries@.len() - i,
        {
            let ek = chars_of(self.entries[i].0.as_str());
            if chars_eq(&ek, &k) {
                proof {
                    self.lemma_at(key@, i as int);
                }
                return Some(&self.entries[i].1);
            }
            i = i + 1;
        }
        proof {
            if self.spec_map().contains_key(key@) {
                let j = choose|j: int| #[trigger] self.has_key_at(key@, j);
                assert(self.has_key_at(key@, j));
            }
        }
        None
    }

    /// Stores `cfg` under `key`, replacing what was there.
    pub fn insert(&mut self, key: String, cfg: ProviderConfig)
        ensures
            final(self)@ == old(self)@.insert(key@, cfg@),
    {
        proof {
            use_type_invariant(&*self);
        }
        let ghost orig = *self;
        let k = chars_of(key.as_str());
        let mut found: Option<usize> = None;
        let mut i: usize = 0;
        while i < self.entries.len()
            invariant_except_break
                found is None,
            invariant
                0 <= i <= self.entries@.len(),
                *self == orig,
                orig.keys_unique(),
                k@ == key@,
                forall|j: int| 0 <= j < i ==> self.entries@[j].0@ != key@,
            ensures
                *self == orig,
                match found {
                    Some(f) => f < self.entries@.len() && self.entries@[f as int].0@ == key@,
                    None => forall|j: int| 0 <= j < self.entries@.len() ==> self.entries@[j].0@ != key@,
                },
            decreases self.entries@.len() - i,
        {
            let ek = chars_of(self.entries[i].0.as_str());
            if chars_eq(&ek, &k) {
                found = Some(i);
                break;
            }
            i = i + 1;
        }
        let mut entries: Vec<(String, ProviderConfig)> = Vec::new();
        std::mem::swap(&mut entries, &mut self.entries);
        assert(entries@ == orig.entries@);
        let ghost key_v = key@;
        let ghost cfg_v = cfg@;
        match found {
            Some(f) => {
                entries.set(f, (key, cfg));
                let next = ProviderMap { entries };
                proof {
                    assert(next.entries@ =~= orig.entries@.update(f as int, next.entries@[f as int]));
                    next.lemma_replaced(orig, f as int);
                }
                *self = next;
            },
            None => {
                entries.push((key, cfg));
                let next = ProviderMap { entries };
                proof {
                    assert(next.entries@.drop_last() =~= orig.entries@);
                    next.lemma_appended(orig);
                }
                *self = next;
            },
        }
    }

    proof fn lemma_replaced(self, before: ProviderMap, i: int)
        requires
            before.keys_unique(),
            0 <= i < before.entries@.len(),
            self.entries@ == before.entries@.update(i, self.entries@[i]),
            self.entries@[i].0@ == before.entries@[i].0@,
        ensures
            self.keys_unique(),
            self.spec_map() == before.spec_map().insert(self.entries@[i].0@, self.entries@[i].1@),
    {
        let k = self.entries@[i].0@;
        assert forall|a: int, b: int| 0 <= a < b < self.entries@.len() implies #[trigger] self.entries@[a].0@
            != #[trigger] self.entries@[b].0@ by {
            assert(self.entries@[a].0@ == before.entries@[a].0@);
            assert(self.entries@[b].0@ == before.entries@[b].0@);
        }
        assert(self.spec_map() =~= before.spec_map().insert(k, self.entries@[i].1@)) by {
            assert forall|q: Seq<char>| #[trigger] self.spec_map().contains_key(q) == before.spec_map().insert(k, self.entries@[i].1@).contains_key(q) by {
                if self.spec_map().contains_key(q) {
                    let j = choose|j: int| #[trigger] self.has_key_at(q, j);
                    assert(self.has_key_at(q, j));
                    if j != i {
                        assert(before.has_key_at(q, j));
                    }
                }
                if before.spec_map().contains_key(q) {
                    let j = choose|j: int| #[trigger] before.has_key_at(q, j);
                    assert(before.has_key_at(q, j));
                    assert(self.has_key_at(q, j));
                }
                if q == k {
                    assert(self.has_key_at(q, i));
                }
            }
            assert forall|q: Seq<char>| #[trigger] self.spec_map().contains_key(q) implies self.spec_map()[q]
                == before.spec_map().insert(k, self.entries@[i].1@)[q] by {
                let j = choose|j: int| #[trigger] self.has_key_at(q, j);
                assert(self.has_key_at(q, j));
                self.lemma_at(q, j);
                if j != i {
                    assert(before.has_key_at(q, j));
                    before.lemma_at(q, j);
                }
            }
        }
    }

    proof fn lemma_appended(self, before: ProviderMap)
        requires
            before.keys_unique(),
            self.entries@.len() == before.entries@.len() + 1,
            self.entries@.drop_last() == before.entries@,
            forall|j: int| 0 <= j < before.entries@.len() ==> before.entries@[j].0@ != self.entries@.last().0@,
        ensures
            self.keys_unique(),
            self.spec_map() == before.spec_map().insert(self.entries@.last().0@, self.entries@.last().1@),
    {
        let n = before.entries@.len() as int;
        let k = self.entries@[n].0@;
        assert forall|j: int| 0 <= j < n implies self.entries@[j] == before.entries@[j] by {
            assert(self.entries@.drop_last()[j] == self.entries@[j]);
        }
        assert forall|a: int, b: int| 0 <= a < b < self.entries@.len() implies #[trigger] self.entries@[a].0@
            != #[trigger] self.entries@[b].0@ by {
            assert(self.entries@[a] == before.entries@[a]);
            if b < n {
                assert(self.entries@[b] == before.entries@[b]);
            }
        }
        assert(self.spec_map() =~= before.spec_map().insert(k, self.entries@[n].1@)) by {
            assert forall|q: Seq<char>| #[trigger] self.spec_map().contains_key(q) == before.spec_map().insert(k, self.entries@[n].1@).contains_key(q) by {
                if self.spec_map().contains_key(q) {
                    let j = choose|j: int| #[trigger] self.has_key_at(q, j);
                    assert(self.has_key_at(q, j));
                    if j != n {
                        assert(self.entries@[j] == before.entries@[j]);
                        assert(before.has_key_at(q, j));
                    }
                }
                if before.spec_map().contains_key(q) {
                    let j = choose|j: int| #[trigger] before.has_key_at(q, j);
                    assert(before.has_key_at(q, j));
                    assert(self.entries@[j] == before.entries@[j]);
                    assert(self.has_key_at(q, j));
                }
                if q == k {
                    assert(self.has_key_at(q, n));
                }
            }
            assert forall|q: Seq<char>| #[trigger] self.spec_map().contains_key(q) implies self.spec_map()[q]
                == before.spec_map().insert(k, self.entries@[n].1@)[q] by {
                let j = choose|j: int| #[trigger] self.has_key_at(q, j);
                assert(self.has_key_at(q, j));
                self.lemma_at(q, j);
                if j != n {
                    assert(self.entries@[j] == before.entries@[j]);
                    assert(before.has_key_at(q, j));
                    before.lemma_at(q, j);
                }
            }
        }
    }

    /// A map holding `pairs`; where a name occurs twice the later wins.
    pub fn from_pairs(pairs: Vec<(String, ProviderConfig)>) -> (r: ProviderMap)
        ensures
            r@ == pairs_map(pair_views(pairs@)),
    {
        let mut m = ProviderMap::new();
        let mut i: usize = 0;
        assert(pair_views(pairs@).take(0) =~= Seq::<(Seq<char>, ProviderSettings)>::empty());
        while i < pairs.len()
            invariant
                0 <= i <= pairs@.len(),
                m@ == pairs_map(pair_views(pairs@).take(i as int)),
            decreases pairs@.len() - i,
        {
            let k = copy_string(&pairs[i].0);
            let c = pairs[i].1.duplicate();
            m.insert(k, c);
            proof {
                let v = pair_views(pairs@);
                assert(v.take(i + 1).drop_last() =~= v.take(i as int));
            }
            i = i + 1;
        }
        assert(pair_views(pairs@).take(pairs@.len() as int) =~= pair_views(pairs@));
        m
    }

    /// The stored (name, settings) pairs, each name once.
    pub fn to_pairs(&self) -> (r: Vec<(String, ProviderConfig)>)
        ensures
            r@.len() == self@.dom().len(),
            forall|i: int| 0 <= i < r@.len() ==> #[trigger] self@.contains_key(r@[i].0@) && self@[r@[i].0@]
                == r@[i].1@,
            forall|i: int, j: int| 0 <= i < j < r@.len() ==> #[trigger] r@[i].0@ != #[trigger] r@[j].0@,
            forall|k: Seq<char>| #[trigger] self@.contains_key(k) ==> exists|i: int| 0 <= i < r@.len() && r@[i].0@ == k,
            pairs_map(pair_views(r@)) == self@,
    {
        proof {
            use_type_invariant(self);
            self.lemma_dom_len();
        }
        let mut out: Vec<(String, ProviderConfig)> = Vec::new();
        let mut i: usize = 0;
        while i < self.entries.len()
            invariant
                0 <= i <= self.entries@.len(),
                self.keys_unique(),
                out@.len() == i,
                forall|j: int| 0 <= j < i ==> #[trigger] out@[j].0@ == self.entries@[j].0@ && out@[j].1@
                    == self.entries@[j].1@,
            decreases self.entries@.len() - i,
        {
            let k = copy_string(&self.entries[i].0);
            let c = self.entries[i].1.duplicate();
            out.push((k, c));
            i = i + 1;
        }
        proof {
            assert forall|j: int| 0 <= j < out@.len() implies #[trigger] self.spec_map().contains_key(out@[j].0@)
                && self.spec_map()[out@[j].0@] == out@[j].1@ by {
                assert(out@[j].0@ == self.entries@[j].0@);
                self.lemma_at(out@[j].0@, j);
            }
            assert forall|k: Seq<char>| #[trigger] self.spec_map().contains_key(k) implies exists|i: int|
                0 <= i < out@.len() && out@[i].0@ == k by {
                let j = choose|j: int| #[trigger] self.has_key_at(k, j);
                assert(out@[j].0@ == k);
            }
            let v = pair_views(out@);
            assert forall|k: Seq<char>| #[trigger] self.spec_map().contains_key(k) implies exists|i: int|
                0 <= i < v.len() && v[i].0 == k by {
                let i = choose|i: int| 0 <= i < out@.len() && out@[i].0@ == k;
                assert(v[i].0 == k);
            }
            law_pairs_roundtrip(self.spec_map(), v);
        }
        out
    }
}

impl View for ProviderMap {
    type V = Map<Seq<char>, ProviderSettings>;

    closed spec fn view(&self) -> Map<Seq<char>, ProviderSettings> {
        self.spec_map()
    }
}

#[derive(Debug)]
pub struct Config {
    pub active_provider: String,
    pub providers: ProviderMap,
    pub transcript: TranscriptConfig,
}

impl Default for Config {
    fn default() -> (r: Config)
        ensures
            r.active_provider@ == ProviderKind::Ollama.spec_as_str(),
            r.providers@ == Map::<Seq<char>, ProviderSettings>::empty(),
            r.transcript.max_chars_per_entry == 4000,
            r.transcript.max_total_chars == 32000,
    {
        Config {
            active_provider: String::from_str(ProviderKind::Ollama.as_str()),
            providers: ProviderMap::new(),
            transcript: TranscriptConfig::default(),
        }
    }
}

#[derive(Debug)]
pub enum ConfigError {
    Io(String),
    Parse(String),
    Serialize(String),
    NotConfigured(String),
}

/// What `Config::active_provider_config` answers: the active provider and
/// its settings, or the name to report as not configured.
pub open spec fn resolve_active(
    active: Seq<char>,
    providers: Map<Seq<char>, ProviderSettings>,
) -> Result<(ProviderKind, ProviderSettings), Seq<char>> {
    match ProviderKind::spec_parse(active) {
        None => Err(active),
        Some(kind) => if providers.contains_key(kind.spec_as_str()) {
            Ok((kind, providers[kind.spec_as_str()]))
        } else {
            Err(kind.spec_as_str())
        },
    }
}

/// The message for a provider that `llm setup` has not configured.
pub open spec fn not_configured_message(p: Seq<char>) -> Seq<char> {
    "provider '"@ + p + "' is not configured yet; run `llm setup --provider "@ + p + "`"@
}

impl ConfigError {
    /// The error as a message for people.
    pub open spec fn spec_message(&self) -> Seq<char> {
        match self {
            ConfigError::Io(e) => "io error: "@ + e@,
            ConfigError::Parse(e) => "failed to parse config.toml: "@ + e@,
            ConfigError::Serialize(e) => "failed to serialize config: "@ + e@,
            ConfigError::NotConfigured(p) => not_configured_message(p@),
        }
    }

    pub fn message(&self) -> (r: String)
        ensures
            r@ == self.spec_message(),
    {
        let mut out: Vec<char> = Vec::new();
        match self {
            ConfigError::Io(e) => {
                push_str(&mut out, "io error: ");
                push_str(&mut out, e.as_str());
            },
            ConfigError::Parse(e) => {
                push_str(&mut out, "failed to parse config.toml: ");
                push_str(&mut out, e.as_str());
            },
            ConfigError::Serialize(e) => {
                push_str(&mut out, "failed to serialize config: ");
                push_str(&mut out, e.as_str());
            },
            ConfigError::NotConfigured(p) => {
                push_str(&mut out, "provider '");
                push_str(&mut out, p.as_str());
                push_str(&mut out, "' is not configured yet; run `llm setup --provider ");
                push_str(&mut out, p.as_str());
                push_str(&mut out, "`");
            },
        }
        string_from_chars(&out)
    }
}

impl Config {
    pub fn active_provider_kind(&self) -> (r: Option<ProviderKind>)
        ensures
            r == ProviderKind::spec_parse(self.active_provider@),
    {
        ProviderKind::parse(self.active_provider.as_str())
    }

    /// The active provider and its settings, or `NotConfigured` naming the
    /// provider that `llm setup` should be run for.
    pub fn active_provider_config(&self) -> (r: Result<(ProviderKind, ProviderConfig), ConfigError>)
        ensures
            match r {
                Ok((kind, cfg)) => resolve_active(self.active_provider@, self.providers@) == Ok::<
                    (ProviderKind, ProviderSettings),
                    Seq<char>,
                >((kind, cfg@)),
                Err(ConfigError::NotConfigured(p)) => resolve_active(
                    self.active_provider@,
                    self.providers@,
                ) == Err::<(ProviderKind, ProviderSettings), Seq<char>>(p@),
                Err(_) => false,
            },
    {
        let kind = match self.active_provider_kind() {
            Some(k) => k,
            None => return Err(ConfigError::NotConfigured(copy_string(&self.active_provider))),
        };
        match self.providers.get(kind.as_str()) {
            Some(cfg) => Ok((kind, cfg.duplicate())),
            None => Err(ConfigError::NotConfigured(String::from_str(kind.as_str()))),
        }
    }

    /// Stores `cfg` as `kind`'s settings and makes `kind` the active provider.
    pub fn set_provider(&mut self, kind: ProviderKind, cfg: ProviderConfig)
        ensures
            final(self).providers@ == old(self).providers@.insert(kind.spec_as_str(), cfg@),
            final(self).active_provider@ == kind.spec_as_str(),
            final(self).transcript == old(self).transcript,
    {
        self.providers.insert(String::from_str(kind.as_str()), cfg);
        self.active_provider = String::from_str(kind.as_str());
    }
}

/// Law: after `set_provider(kind, cfg)` the active provider resolves to
/// exactly `kind` and `cfg`, whatever was configured before.
pub proof fn law_set_then_active(
    providers: Map<Seq<char>, ProviderSettings>,
    kind: ProviderKind,
    cfg: ProviderSettings,
)
    ensures
        resolve_active(kind.spec_as_str(), providers.insert(kind.spec_as_str(), cfg)) == Ok::<
            (ProviderKind, ProviderSettings),
            Seq<char>,
        >((kind, cfg)),
{
    law_parse_names_roundtrip(kind);
}

/// Law: `set_provider` leaves every other provider's settings as they were.
pub proof fn law_set_keeps_others(
    providers: Map<Seq<char>, ProviderSettings>,
    kind: ProviderKind,
    cfg: ProviderSettings,
    other: Seq<char>,
)
    requires
        other != kind.spec_as_str(),
    ensures
        providers.insert(kind.spec_as_str(), cfg).contains_key(other) == providers.contains_key(other),
        providers.contains_key(other) ==> providers.insert(kind.spec_as_str(), cfg)[other]
            == providers[other],
{
}

/// Law: storing a list that holds each name of `m` once, with its settings
/// in `m`, gives back `m`: the providers survive a round trip through the
/// (name, settings) list that the configuration file keeps.
pub proof fn law_pairs_roundtrip(
    m: Map<Seq<char>, ProviderSettings>,
    p: Seq<(Seq<char>, ProviderSettings)>,
)
    requires
        forall|i: int, j: int| 0 <= i < j < p.len() ==> #[trigger] p[i].0 != #[trigger] p[j].0,
        forall|i: int| 0 <= i < p.len() ==> #[trigger] m.contains_key(p[i].0) && m[p[i].0] == p[i].1,
        forall|k: Seq<char>| #[trigger] m.contains_key(k) ==> exists|i: int| 0 <= i < p.len() && p[i].0 == k,
    ensures
        pairs_map(p) == m,
    decreases p.len(),
{
    if p.len() == 0 {
        assert(m =~= Map::<Seq<char>, ProviderSettings>::empty()) by {
            assert forall|k: Seq<char>| !m.contains_key(k) by {
                if m.contains_key(k) {
                    let i = choose|i: int| 0 <= i < p.len() && p[i].0 == k;
                }
            }
        }
    } else {
        let q = p.drop_last();
        let last = p.last();
        let m2 = m.remove(last.0);
        assert forall|i: int, j: int| 0 <= i < j < q.len() implies #[trigger] q[i].0 != #[trigger] q[j].0 by {
            assert(q[i] == p[i] && q[j] == p[j]);
        }
        assert forall|i: int| 0 <= i < q.len() implies #[trigger] m2.contains_key(q[i].0) && m2[q[i].0]
            == q[i].1 by {
            assert(q[i] == p[i]);
            assert(p[i].0 != p[p.len() - 1].0);
        }
        assert forall|k: Seq<char>| #[trigger] m2.contains_key(k) implies exists|i: int|
            0 <= i < q.len() && q[i].0 == k by {
            let i = choose|i: int| 0 <= i < p.len() && p[i].0 == k;
            assert(i != p.len() - 1);
            assert(q[i] == p[i]);
        }
        law_pairs_roundtrip(m2, q);
        assert(m.contains_key(p[p.len() - 1].0));
        assert(pairs_map(p) =~= m);
    }
}

} // verus!
