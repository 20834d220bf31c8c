//! The providers configuration: for each provider, in the order written, its
//! models, base URL and optional API version.
use vstd::prelude::*;
use crate::base_url::{parse_url, url_serialization};
use crate::collections::{
    collect_provider_map, map_built, insert_model, insert_new_provider, model_set_get, model_set_items, model_set_len,
    new_model_set, new_provider_map, provider_map_entries, provider_map_get, provider_map_len,
};
use indexmap::{IndexMap, IndexSet};
use crate::model_id::{
    same_model_spec, base_name, has_valid_date, parses, version_digits, version_of, dated_suffix, ModelId,
    ModelIdError, Version,
};
use crate::provider::{is_builtin_token, is_valid_token, same_provider, InferenceProvider};

verus! {

/// One provider's settings as written in configuration text.
#[derive(Debug, Clone, PartialEq, Eq)]
pub struct RawProviderConfig {
    pub models: Vec<String>,
    pub base_url: String,
    pub version: Option<String>,
}

/// Configuration for one provider, shared across all routers.
#[derive(Debug, PartialEq, Eq)]
pub struct GlobalProviderConfig {
    /// The provider's models, without repeats, in the order first written.
    pub models: IndexSet<ModelId>,
    /// The serialization of the provider's absolute base URL.
    pub base_url: String,
    /// The API version that the provider's requests carry by default.
    pub version: Option<String>,
}

/// Map of all configured providers, in the order they were written.
#[derive(Debug, PartialEq, Eq)]
pub struct ProvidersConfig {
    entries: IndexMap<InferenceProvider, GlobalProviderConfig>,
}

/// Why configuration text could not be decoded.
#[derive(Debug, Clone, PartialEq, Eq)]
pub enum ConfigError {
    /// A provider key that is not a lowercase kebab-case token.
    InvalidProviderToken { token: String },
    /// A base URL that does not parse as an absolute URL.
    InvalidBaseUrl { provider: InferenceProvider, url: String },
    /// A model name ending in a date of the provider's layout that is not a calendar day.
    InvalidVersionDate { provider: InferenceProvider, model: String, digits: String },
    /// A model name with nothing left once its version is taken off.
    EmptyModelName { provider: InferenceProvider, model: String },
    /// A provider key written a second time.
    DuplicateProviderKey { provider: InferenceProvider },
}

/// What identifies a model: its provider's token, its name and its version.
pub open spec fn model_key(m: ModelId) -> (Seq<char>, Seq<char>, Version) {
    (m.provider_spec()@, m.model_spec(), m.version_spec())
}

/// The key of the model that `s` names under provider token `p`.
pub open spec fn parsed_key(p: Seq<char>, s: Seq<char>) -> (Seq<char>, Seq<char>, Version) {
    (p, base_name(p, s), version_of(p, s))
}

/// `s` without repeats, each element where it first occurs.
pub open spec fn dedup<A>(s: Seq<A>) -> Seq<A>
    decreases s.len(),
{
    if s.len() == 0 {
        s
    } else {
        let d = dedup(s.drop_last());
        if d.contains(s.last()) {
            d
        } else {
            d.push(s.last())
        }
    }
}

pub open spec fn no_repeats<A>(s: Seq<A>) -> bool {
    forall|i: int, j: int| 0 <= i < j < s.len() ==> s[i] != s[j]
}

pub open spec fn model_texts(ms: Seq<String>) -> Seq<Seq<char>> {
    ms.map_values(|m: String| m@)
}

/// The keys of the models that `ms` names under provider token `p`, without repeats.
pub open spec fn decoded_keys(p: Seq<char>, ms: Seq<Seq<char>>) -> Seq<(Seq<char>, Seq<char>, Version)> {
    dedup(ms.map_values(|s: Seq<char>| parsed_key(p, s)))
}

/// The entry for token `p` with settings `r` decodes.
pub open spec fn entry_ok(p: Seq<char>, r: RawProviderConfig) -> bool {
    &&& is_valid_token(p)
    &&& url_serialization(r.base_url@) is Some
    &&& forall|j: int| 0 <= j < r.models@.len() ==> parses(p, #[trigger] r.models@[j]@)
}

/// `e` reports that model name `s` of provider `provider` was rejected.
pub open spec fn is_model_error(e: ConfigError, provider: InferenceProvider, s: Seq<char>) -> bool {
    if !has_valid_date(provider@, s) {
        e == ConfigError::InvalidVersionDate {
            provider,
            model: e->InvalidVersionDate_model,
            digits: e->InvalidVersionDate_digits,
        } && e->InvalidVersionDate_model@ == s && e->InvalidVersionDate_digits@ == version_digits(
            s,
            dated_suffix(provider@, s)->Some_0,
        )
    } else {
        e == ConfigError::EmptyModelName { provider, model: e->EmptyModelName_model }
            && e->EmptyModelName_model@ == s
    }
}

/// The provider that a well-formed token decodes to.
pub open spec fn is_provider_of(q: InferenceProvider, p: Seq<char>) -> bool {
    q@ == p && q.wf() && (q is Named <==> !is_builtin_token(p))
}

/// `e` is the error that decoding the entry for token `p` with settings `r`
/// reports, when `seen` holds the tokens of the entries before it: a bad
/// token, then a repeated one, then a bad base URL, then the first bad model.
pub open spec fn is_entry_error(
    e: ConfigError,
    p: Seq<char>,
    r: RawProviderConfig,
    seen: Seq<Seq<char>>,
) -> bool {
    if !is_valid_token(p) {
        e is InvalidProviderToken && e->InvalidProviderToken_token@ == p
    } else if seen.contains(p) {
        e is DuplicateProviderKey && is_provider_of(e->DuplicateProviderKey_provider, p)
    } else if url_serialization(r.base_url@) is None {
        e is InvalidBaseUrl && is_provider_of(e->InvalidBaseUrl_provider, p)
            && e->InvalidBaseUrl_url@ == r.base_url@
    } else {
        exists|j: int|
            #![trigger is_first_bad_model(p, r, j)]
            is_first_bad_model(p, r, j) && (e is InvalidVersionDate || e is EmptyModelName)
                && is_provider_of(error_provider(e), p) && is_model_error(
                e,
                error_provider(e),
                r.models@[j]@,
            )
    }
}

/// Model `j` of `r` is the first that does not parse under provider token `p`.
pub open spec fn is_first_bad_model(p: Seq<char>, r: RawProviderConfig, j: int) -> bool {
    &&& 0 <= j < r.models@.len()
    &&& forall|k: int| 0 <= k < j ==> parses(p, #[trigger] r.models@[k]@)
    &&& !parses(p, r.models@[j]@)
}

/// The provider that an error names, if it names one.
pub open spec fn error_provider(e: ConfigError) -> InferenceProvider {
    match e {
        ConfigError::InvalidProviderToken { .. } => InferenceProvider::OpenAI,
        ConfigError::InvalidBaseUrl { provider, .. } => provider,
        ConfigError::InvalidVersionDate { provider, .. } => provider,
        ConfigError::EmptyModelName { provider, .. } => provider,
        ConfigError::DuplicateProviderKey { provider } => provider,
    }
}

impl GlobalProviderConfig {
    /// This provider's models, in order.
    pub open spec fn model_items(&self) -> Seq<ModelId> {
        model_set_items(self.models)
    }

    /// The keys of this provider's models, in order.
    pub open spec fn model_keys(&self) -> Seq<(Seq<char>, Seq<char>, Version)> {
        self.model_items().map_values(|m: ModelId| model_key(m))
    }

    /// `self` is what decoding the settings `r` of provider `q` gives.
    pub open spec fn is_decoded_from(&self, q: InferenceProvider, r: RawProviderConfig) -> bool {
        &&& self.model_keys() == decoded_keys(q@, model_texts(r.models@))
        &&& forall|k: int| 0 <= k < self.model_items().len() ==> (#[trigger] self.model_items()[k]).provider_spec() == q
        &&& Some(self.base_url@) == url_serialization(r.base_url@)
        &&& self.version == r.version
    }
}

impl ProvidersConfig {
    /// The providers and their settings, in order.
    pub closed spec fn entries_spec(&self) -> Seq<(InferenceProvider, GlobalProviderConfig)> {
        provider_map_entries(self.entries)
    }

    /// The tokens of the providers, in order.
    pub open spec fn tokens(&self) -> Seq<Seq<char>> {
        self.entries_spec().map_values(|e: (InferenceProvider, GlobalProviderConfig)| e.0@)
    }

    /// Provider tokens are unique; each provider's models are unique and belong to it.
    pub open spec fn wf(&self) -> bool {
        &&& no_repeats(self.tokens())
        &&& forall|i: int| 0 <= i < self.entries_spec().len() ==> (#[trigger] self.entries_spec()[i]).0.wf()
        &&& forall|i: int| 0 <= i < self.entries_spec().len() ==> no_repeats((#[trigger] self.entries_spec()[i]).1.model_keys())
        &&& forall|i: int, k: int| 0 <= i < self.entries_spec().len() && 0 <= k < self.entries_spec()[i].1.model_items().len()
            ==> (#[trigger] self.entries_spec()[i].1.model_items()[k]).provider_spec() == self.entries_spec()[i].0
    }
}

/// The provider tokens of raw entries, in order.
pub open spec fn raw_tokens(raw: Seq<(String, RawProviderConfig)>) -> Seq<Seq<char>> {
    raw.map_values(|e: (String, RawProviderConfig)| e.0@)
}

/// Taking out repeats leaves no repeats.
pub proof fn lemma_dedup_no_repeats<A>(s: Seq<A>)
    ensures
        no_repeats(dedup(s)),
    decreases s.len(),
{
    if s.len() > 0 {
        lemma_dedup_no_repeats(s.drop_last());
        let d = dedup(s.drop_last());
        if !d.contains(s.last()) {
            let e = d.push(s.last());
            assert forall|i: int, j: int| 0 <= i < j < e.len() implies e[i] != e[j] by {
                if j == d.len() {
                    assert(d[i] == e[i]);
                }
            }
        }
    }
}

/// A sequence without repeats is left as it is, in the same order.
pub proof fn lemma_dedup_keeps_distinct<A>(s: Seq<A>)
    requires
        no_repeats(s),
    ensures
        dedup(s) == s,
    decreases s.len(),
{
    if s.len() > 0 {
        let t = s.drop_last();
        assert(no_repeats(t)) by {
            assert forall|i: int, j: int| 0 <= i < j < t.len() implies t[i] != t[j] by {
                assert(t[i] == s[i] && t[j] == s[j]);
            }
        }
        lemma_dedup_keeps_distinct(t);
        assert(!t.contains(s.last())) by {
            if t.contains(s.last()) {
                let k = choose|k: int| 0 <= k < t.len() && t[k] == s.last();
                assert(s[k] == s[s.len() - 1]);
            }
        }
        assert(t.push(s.last()) =~= s);
    }
}

fn copy_version(v: &Option<String>) -> (r: Option<String>)
    ensures
        r == *v,
{
    match v {
        Some(s) => Some(s.clone()),
        None => None,
    }
}

/// The configuration error for a rejected model name.
fn model_error(e: ModelIdError) -> (r: ConfigError)
    ensures
        r == (match e {
            ModelIdError::InvalidVersionDate { provider, model, digits } => ConfigError::InvalidVersionDate {
                provider,
                model,
                digits,
            },
            ModelIdError::EmptyModelName { provider, model } => ConfigError::EmptyModelName {
                provider,
                model,
            },
        }),
{
    match e {
        ModelIdError::InvalidVersionDate { provider, model, digits } => ConfigError::InvalidVersionDate {
            provider,
            model,
            digits,
        },
        ModelIdError::EmptyModelName { provider, model } => ConfigError::EmptyModelName {
            provider,
            model,
        },
    }
}

/// The provider that a well-formed provider value is written as.
proof fn lemma_provider_of_itself(q: InferenceProvider)
    requires
        q.wf(),
    ensures
        is_provider_of(q, q@),
        is_valid_token(q@),
{
    crate::provider::lemma_builtin_tokens_valid();
}

impl GlobalProviderConfig {
    /// Decodes the settings of `provider`: its base URL, then each model name
    /// in order under the provider's naming rules. A model named twice is kept
    /// once, where it first occurs.
    pub fn decode(provider: &InferenceProvider, raw: &RawProviderConfig) -> (r: Result<
        GlobalProviderConfig,
        ConfigError,
    >)
        requires
            provider.wf(),
        ensures
            r is Ok <==> entry_ok(provider@, *raw),
            r matches Ok(g) ==> g.is_decoded_from(*provider, *raw),
            r matches Err(e) ==> is_entry_error(e, provider@, *raw, Seq::empty()),
    {
        proof {
            lemma_provider_of_itself(*provider);
        }
        let base_url = match parse_url(raw.base_url.as_str()) {
            Ok(u) => u,
            Err(_) => {
                return Err(
                    ConfigError::InvalidBaseUrl {
                        provider: provider.copied(),
                        url: raw.base_url.clone(),
                    },
                );
            },
        };
        let ghost p = provider@;
        let ghost texts = model_texts(raw.models@);
        let mut models: IndexSet<ModelId> = new_model_set();
        let mut j: usize = 0;
        while j < raw.models.len()
            invariant
                p == provider@,
                provider.wf(),
                is_provider_of(*provider, p),
                is_valid_token(p),
                texts == model_texts(raw.models@),
                url_serialization(raw.base_url@) == Some(base_url@),
                j <= raw.models@.len(),
                forall|k: int| 0 <= k < j ==> parses(p, #[trigger] raw.models@[k]@),
                model_set_items(models).map_values(|m: ModelId| model_key(m)) == decoded_keys(p, texts.subrange(0, j as int)),
                forall|k: int| 0 <= k < model_set_items(models).len() ==> (#[trigger] model_set_items(models)[k]).provider_spec() == *provider,
            decreases raw.models@.len() - j,
        {
            match ModelId::from_str_and_provider(provider.copied(), raw.models[j].as_str()) {
                Ok(m) => {
                    let ghost items = model_set_items(models);
                    let ghost keys = items.map_values(|m: ModelId| model_key(m));
                    let inserted = insert_model(&mut models, m);
                    proof {
                        let x = model_key(m);
                        if keys.contains(x) {
                            let w = choose|w: int| 0 <= w < keys.len() && keys[w] == x;
                            assert(same_model_spec(items[w], m));
                        }
                        if !inserted {
                            let w = choose|w: int| 0 <= w < items.len() && same_model_spec(#[trigger] items[w], m);
                            assert(keys[w] == x);
                        }
                        let s0 = texts.subrange(0, j as int).map_values(|s: Seq<char>| parsed_key(p, s));
                        let s1 = texts.subrange(0, j + 1).map_values(|s: Seq<char>| parsed_key(p, s));
                        assert(s1.drop_last() =~= s0);
                        assert(texts[j as int] == raw.models@[j as int]@);
                        assert(s1.last() == x);
                        if inserted {
                            assert(model_set_items(models).map_values(|m: ModelId| model_key(m)) =~= keys.push(x));
                        }
                    }
                },
                Err(e) => {
                    let r = model_error(e);
                    proof {
                        let sj = raw.models@[j as int]@;
                        assert(r is InvalidVersionDate || r is EmptyModelName);
                        assert(!parses(p, sj));
                        assert(is_model_error(r, *provider, sj));
                        assert(is_first_bad_model(p, *raw, j as int));
                        assert(error_provider(r) == *provider);
                        assert(!Seq::<Seq<char>>::empty().contains(p));
                    }
                    return Err(r);
                },
            }
            j = j + 1;
        }
        proof {
            assert(texts.subrange(0, j as int) =~= texts);
        }
        Ok(GlobalProviderConfig { models, base_url, version: copy_version(&raw.version) })
    }
}

/// Raw entry `i` is the first whose decoding fails, and `e` is what it reports.
pub open spec fn is_first_fault(raw: Seq<(String, RawProviderConfig)>, i: int, e: ConfigError) -> bool {
    &&& 0 <= i < raw.len()
    &&& forall|k: int| 0 <= k < i ==> entry_ok(#[trigger] raw[k].0@, raw[k].1)
    &&& no_repeats(raw_tokens(raw).subrange(0, i))
    &&& is_entry_error(e, raw[i].0@, raw[i].1, raw_tokens(raw).subrange(0, i))
}

impl ProvidersConfig {
    /// Decodes configuration given as (provider token, settings) pairs in the
    /// order written. Fails on the first entry that does not decode; a token
    /// written twice is an error, never a silent overwrite.
    pub fn from_raw_entries(raw: &Vec<(String, RawProviderConfig)>) -> (r: Result<
        ProvidersConfig,
        ConfigError,
    >)
        ensures
            r is Ok <==> (forall|i: int| 0 <= i < raw@.len() ==> entry_ok(#[trigger] raw@[i].0@, raw@[i].1))
                && no_repeats(raw_tokens(raw@)),
            r matches Ok(c) ==> c.wf() && c.entries_spec().len() == raw@.len() && c.tokens() == raw_tokens(raw@),
            r matches Ok(c) ==> forall|i: int|
                0 <= i < raw@.len() ==> is_provider_of((#[trigger] c.entries_spec()[i]).0, raw@[i].0@)
                    && c.entries_spec()[i].1.is_decoded_from(c.entries_spec()[i].0, raw@[i].1),
            r matches Err(e) ==> exists|i: int| #[trigger] is_first_fault(raw@, i, e),
            (forall|i: int| 0 <= i < raw@.len() ==> entry_ok(#[trigger] raw@[i].0@, raw@[i].1))
                && !no_repeats(raw_tokens(raw@)) ==> r matches Err(ConfigError::DuplicateProviderKey { .. }),
    {
        let ghost toks = raw_tokens(raw@);
        let mut entries: IndexMap<InferenceProvider, GlobalProviderConfig> = new_provider_map();
        let mut i: usize = 0;
        while i < raw.len()
            invariant
                toks == raw_tokens(raw@),
                i <= raw@.len(),
                provider_map_entries(entries).len() == i,
                forall|k: int| 0 <= k < i ==> entry_ok(#[trigger] raw@[k].0@, raw@[k].1),
                no_repeats(toks.subrange(0, i as int)),
                forall|k: int|
                    0 <= k < i ==> is_provider_of((#[trigger] provider_map_entries(entries)[k]).0, raw@[k].0@)
                        && provider_map_entries(entries)[k].1.is_decoded_from(provider_map_entries(entries)[k].0, raw@[k].1),
            decreases raw@.len() - i,
        {
            let entry = &raw[i];
            let provider = match InferenceProvider::from_token(entry.0.as_str()) {
                Some(p) => p,
                None => {
                    let e = ConfigError::InvalidProviderToken { token: entry.0.clone() };
                    proof {
                        assert(is_first_fault(raw@, i as int, e));
                    }
                    return Err(e);
                },
            };
            let ghost seen = toks.subrange(0, i as int);
            proof {
                lemma_provider_of_itself(provider);
            }
            let mut k: usize = 0;
            while k < provider_map_len(&entries)
                invariant
                    k <= provider_map_entries(entries).len(),
                    provider_map_entries(entries).len() == i,
                    i < raw@.len(),
                    toks == raw_tokens(raw@),
                    seen == toks.subrange(0, i as int),
                    provider@ == raw@[i as int].0@,
                    is_provider_of(provider, provider@),
                    is_valid_token(provider@),
                    forall|w: int| 0 <= w < i ==> entry_ok(#[trigger] raw@[w].0@, raw@[w].1),
                    no_repeats(seen),
                    forall|w: int|
                        0 <= w < i ==> is_provider_of((#[trigger] provider_map_entries(entries)[w]).0, raw@[w].0@)
                            && provider_map_entries(entries)[w].1.is_decoded_from(provider_map_entries(entries)[w].0, raw@[w].1),
                    forall|w: int| 0 <= w < k ==> seen[w] != provider@,
                decreases provider_map_entries(entries).len() - k,
            {
                let (known, _) = provider_map_get(&entries, k).unwrap();
                if known.same_token(&provider) {
                    let e = ConfigError::DuplicateProviderKey { provider };
                    proof {
                        assert(seen[k as int] == raw@[k as int].0@);
                        assert(seen.contains(raw@[i as int].0@));
                        assert(toks[k as int] == toks[i as int]);
                        assert(!no_repeats(toks));
                        assert(is_first_fault(raw@, i as int, e));
                    }
                    return Err(e);
                }
                proof {
                    assert(seen[k as int] == raw@[k as int].0@);
                }
                k = k + 1;
            }
            proof {
                assert(!seen.contains(provider@));
            }
            match GlobalProviderConfig::decode(&provider, &entry.1) {
                Ok(g) => {
                    proof {
                        assert(toks.subrange(0, i + 1) =~= seen.push(provider@));
                        assert(toks[i as int] == raw@[i as int].0@);
                        crate::config::lemma_provider_of_itself(provider);
                    }
                    proof {
                        assert forall|w: int| 0 <= w < provider_map_entries(entries).len() implies (#[trigger] provider_map_entries(entries)[w]).0@ != provider@ by {
                            assert(seen[w] == raw@[w].0@);
                        }
                    }
                    insert_new_provider(&mut entries, provider, g);
                },
                Err(e) => {
                    proof {
                        if e is DuplicateProviderKey {
                            assert(Seq::<Seq<char>>::empty().contains(provider@));
                        }
                        assert(is_first_fault(raw@, i as int, e));
                    }
                    return Err(e);
                },
            }
            i = i + 1;
        }
        let c = ProvidersConfig { entries };
        proof {
            assert(toks.subrange(0, i as int) =~= toks);
            assert(c.tokens() =~= toks);
            assert forall|w: int| 0 <= w < c.entries_spec().len() implies no_repeats(
                (#[trigger] c.entries_spec()[w]).1.model_keys(),
            ) by {
                lemma_dedup_no_repeats(
                    model_texts(raw@[w].1.models@).map_values(
                        |s: Seq<char>| parsed_key(raw@[w].0@, s),
                    ),
                );
            }
        }
        Ok(c)
    }

    /// The settings of `provider`, if it is configured: the entry whose
    /// provider equals `provider` (same kind, built in or named, and same token).
    pub fn get(&self, provider: &InferenceProvider) -> (r: Option<&GlobalProviderConfig>)
        ensures
            r is Some <==> exists|i: int|
                0 <= i < self.entries_spec().len() && same_provider(
                    #[trigger] self.entries_spec()[i].0,
                    *provider,
                ),
            r matches Some(g) ==> exists|i: int|
                0 <= i < self.entries_spec().len() && same_provider(
                    #[trigger] self.entries_spec()[i].0,
                    *provider,
                ) && *g == self.entries_spec()[i].1,
    {
        let mut i: usize = 0;
        while i < provider_map_len(&self.entries)
            invariant
                i <= self.entries_spec().len(),
                forall|w: int| 0 <= w < i ==> !same_provider(#[trigger] self.entries_spec()[w].0, *provider),
            decreases self.entries_spec().len() - i,
        {
            let (known, settings) = provider_map_get(&self.entries, i).unwrap();
            if *known == *provider {
                return Some(settings);
            }
            i = i + 1;
        }
        None
    }

    /// Builds the map from (provider, settings) pairs in order. A provider
    /// given again keeps its first place and takes the later settings.
    pub fn from_iter(pairs: Vec<(InferenceProvider, GlobalProviderConfig)>) -> (r: ProvidersConfig)
        ensures
            r.entries_spec() == map_built(pairs@),
    {
        ProvidersConfig { entries: collect_provider_map(pairs) }
    }

    /// Number of configured providers.
    pub fn len(&self) -> (r: usize)
        ensures
            r == self.entries_spec().len(),
    {
        provider_map_len(&self.entries)
    }

    /// The provider at position `i` and its settings, in the order written.
    pub fn get_index(&self, i: usize) -> (r: Option<(&InferenceProvider, &GlobalProviderConfig)>)
        ensures
            r is Some <==> i < self.entries_spec().len(),
            r matches Some(e) ==> *e.0 == self.entries_spec()[i as int].0 && *e.1
                == self.entries_spec()[i as int].1,
    {
        provider_map_get(&self.entries, i)
    }
}

/// Order preservation: when the models written for a provider name pairwise
/// different models, the decoded settings hold them in exactly the order
/// written.
pub proof fn lemma_decoded_models_keep_order(g: GlobalProviderConfig, q: InferenceProvider, r: RawProviderConfig)
    requires
        g.is_decoded_from(q, r),
        no_repeats(model_texts(r.models@).map_values(|s: Seq<char>| parsed_key(q@, s))),
    ensures
        g.model_keys() == model_texts(r.models@).map_values(|s: Seq<char>| parsed_key(q@, s)),
        g.model_items().len() == r.models@.len(),
        forall|k: int| 0 <= k < r.models@.len() ==> (#[trigger] g.model_items()[k]).is_parse_of(q, r.models@[k]@),
{
    let keys = model_texts(r.models@).map_values(|s: Seq<char>| parsed_key(q@, s));
    lemma_dedup_keeps_distinct(keys);
    assert(g.model_keys().len() == keys.len());
    assert forall|k: int| 0 <= k < r.models@.len() implies (#[trigger] g.model_items()[k]).is_parse_of(q, r.models@[k]@) by {
        assert(g.model_keys()[k] == keys[k]);
        assert(model_texts(r.models@)[k] == r.models@[k]@);
    }
}

impl GlobalProviderConfig {
    /// The settings written back as configuration text: each model as text,
    /// in order, with the base URL and API version unchanged.
    pub fn to_raw(&self) -> (r: RawProviderConfig)
        ensures
            model_texts(r.models@) == self.model_items().map_values(|m: ModelId| m.text()),
            r.base_url == self.base_url,
            r.version == self.version,
    {
        let mut models: Vec<String> = Vec::new();
        let mut k: usize = 0;
        while k < model_set_len(&self.models)
            invariant
                k <= self.model_items().len(),
                model_texts(models@) == self.model_items().subrange(0, k as int).map_values(|m: ModelId| m.text()),
            decreases self.model_items().len() - k,
        {
            let t = model_set_get(&self.models, k).unwrap().to_string();
            let ghost before = models@;
            models.push(t);
            proof {
                assert(model_texts(models@) =~= model_texts(before).push(t@));
                assert(self.model_items().subrange(0, k + 1).map_values(|m: ModelId| m.text())
                    =~= self.model_items().subrange(0, k as int).map_values(|m: ModelId| m.text()).push(
                    self.model_items()[k as int].text(),
                ));
            }
            k = k + 1;
        }
        proof {
            assert(self.model_items().subrange(0, k as int) =~= self.model_items());
        }
        RawProviderConfig {
            models,
            base_url: self.base_url.clone(),
            version: copy_version(&self.version),
        }
    }
}

impl ProvidersConfig {
    /// The configuration written back as (provider token, settings) pairs, in order.
    pub fn to_raw_entries(&self) -> (r: Vec<(String, RawProviderConfig)>)
        ensures
            r@.len() == self.entries_spec().len(),
            raw_tokens(r@) == self.tokens(),
            forall|i: int|
                0 <= i < r@.len() ==> model_texts((#[trigger] r@[i]).1.models@)
                    == self.entries_spec()[i].1.model_items().map_values(|m: ModelId| m.text())
                    && r@[i].1.base_url == self.entries_spec()[i].1.base_url
                    && r@[i].1.version == self.entries_spec()[i].1.version,
    {
        let mut out: Vec<(String, RawProviderConfig)> = Vec::new();
        let mut i: usize = 0;
        while i < provider_map_len(&self.entries)
            invariant
                i <= self.entries_spec().len(),
                out@.len() == i,
                forall|w: int|
                    0 <= w < i ==> (#[trigger] out@[w]).0@ == self.entries_spec()[w].0@ && model_texts(out@[w].1.models@)
                        == self.entries_spec()[w].1.model_items().map_values(|m: ModelId| m.text())
                        && out@[w].1.base_url == self.entries_spec()[w].1.base_url
                        && out@[w].1.version == self.entries_spec()[w].1.version,
            decreases self.entries_spec().len() - i,
        {
            let (provider, config) = provider_map_get(&self.entries, i).unwrap();
            let token = provider.as_token();
            let settings = config.to_raw();
            out.push((token, settings));
            i = i + 1;
        }
        proof {
            assert(raw_tokens(out@) =~= self.tokens());
        }
        out
    }
}

/// Every part of `raw` is valid except, possibly, model names that are empty.
pub open spec fn valid_but_empty_names(raw: Seq<(String, RawProviderConfig)>) -> bool {
    &&& no_repeats(raw_tokens(raw))
    &&& forall|k: int|
        0 <= k < raw.len() ==> is_valid_token((#[trigger] raw[k]).0@) && url_serialization(
            raw[k].1.base_url@,
        ) is Some
    &&& forall|k: int, j: int|
        0 <= k < raw.len() && 0 <= j < raw[k].1.models@.len() ==> (#[trigger] raw[k].1.models@[j])@.len()
            == 0 || parses(raw[k].0@, raw[k].1.models@[j]@)
}

/// An empty model name makes decoding fail under every provider. When the
/// rest of the input is valid, the error reported is `EmptyModelName`, naming
/// the provider of an entry that holds an empty name, and the empty name.
pub proof fn lemma_empty_model_name_fails(
    raw: Seq<(String, RawProviderConfig)>,
    i: int,
    j: int,
    e: ConfigError,
)
    requires
        0 <= i < raw.len(),
        0 <= j < raw[i].1.models@.len(),
        raw[i].1.models@[j]@.len() == 0,
    ensures
        !entry_ok(raw[i].0@, raw[i].1),
        valid_but_empty_names(raw) && (exists|k: int| #[trigger] is_first_fault(raw, k, e)) ==> {
            &&& e is EmptyModelName
            &&& e->EmptyModelName_model@.len() == 0
            &&& exists|k: int, m: int|
                0 <= k < raw.len() && 0 <= m < raw[k].1.models@.len() && is_provider_of(
                    e->EmptyModelName_provider,
                    raw[k].0@,
                ) && (#[trigger] raw[k].1.models@[m])@.len() == 0
        },
{
    assert(!parses(raw[i].0@, raw[i].1.models@[j]@));
    if valid_but_empty_names(raw) && (exists|k: int| #[trigger] is_first_fault(raw, k, e)) {
        let k = choose|k: int| #[trigger] is_first_fault(raw, k, e);
        let toks = raw_tokens(raw);
        let seen = toks.subrange(0, k);
        let p = raw[k].0@;
        assert(toks[k] == p);
        assert(is_valid_token(p));
        if seen.contains(p) {
            let w = choose|w: int| 0 <= w < seen.len() && seen[w] == p;
            assert(toks[w] == toks[k]);
        }
        let m = choose|m: int| #[trigger] is_first_bad_model(p, raw[k].1, m);
        assert(is_first_bad_model(p, raw[k].1, m));
        assert(raw[k].1.models@[m]@.len() == 0);
        assert(has_valid_date(p, raw[k].1.models@[m]@));
    }
}

} // verus!
