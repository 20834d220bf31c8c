//! The provider configuration that ships with the gateway.
use vstd::prelude::*;
use crate::config::{
    entry_ok, is_provider_of, lemma_decoded_models_keep_order, model_texts, no_repeats,
    parsed_key, raw_tokens, GlobalProviderConfig, ConfigError, ProvidersConfig,
    RawProviderConfig,
};
use crate::date::{digits_value, lemma_pow10_small};
use crate::model_id::{base_name, dated_suffix, has_valid_date, parses, version_of};
use crate::base_url::url_serialization;
use crate::provider::{is_valid_token, InferenceProvider};

verus! {

/// The API version that Anthropic requests carry unless configured otherwise.
pub const DEFAULT_ANTHROPIC_VERSION: &'static str = "2023-06-01";

/// The tokens of the providers that ship configured, in order.
pub open spec fn shipped_tokens() -> Seq<Seq<char>> {
    seq!["openai"@, "anthropic"@, "gemini"@, "bedrock"@, "ollama"@, "aibadgr"@]
}

/// The model names that ship for each provider, in order.
pub open spec fn shipped_models(i: int) -> Seq<Seq<char>> {
    if i == 0 {
        seq!["gpt-4"@, "gpt-4-turbo"@, "gpt-4o"@, "gpt-4o-mini"@, "gpt-4o-2024-08-06"@]
    } else if i == 1 {
        seq!["clio-3-opus-20240229"@, "clio-3-5-sonnet-20241022"@, "clio-3-5-haiku-latest"@]
    } else if i == 2 {
        seq!["gemini-1.5-pro"@, "gemini-2.0-flash"@]
    } else if i == 3 {
        seq!["anthropic.clio-3-5-sonnet-20240620-v1:0"@]
    } else if i == 4 {
        seq!["llama3.2"@]
    } else {
        seq!["basic"@, "normal"@, "premium"@]
    }
}

/// The base URLs that ship for each provider, in order.
pub open spec fn shipped_base_urls() -> Seq<Seq<char>> {
    seq![
        "https://api.openai.com"@,
        "https://api.anthropic.com"@,
        "https://generativelanguage.googleapis.com"@,
        "https://bedrock-runtime.us-east-1.amazonaws.com"@,
        "http://localhost:11434"@,
        "https://aibadgr.com/api/v1"@,
    ]
}

/// The API version that ships for each provider, if any.
pub open spec fn shipped_version(i: int) -> Option<Seq<char>> {
    if i == 1 {
        Some(DEFAULT_ANTHROPIC_VERSION@)
    } else {
        None
    }
}

pub open spec fn version_text_of(v: Option<String>) -> Option<Seq<char>> {
    match v {
        Some(s) => Some(s@),
        None => None,
    }
}

/// `raw` is the shipped dataset.
pub open spec fn is_shipped_dataset(raw: Seq<(String, RawProviderConfig)>) -> bool {
    &&& raw_tokens(raw) == shipped_tokens()
    &&& forall|i: int| 0 <= i < raw.len() ==> model_texts((#[trigger] raw[i]).1.models@) == shipped_models(i)
    &&& forall|i: int| 0 <= i < raw.len() ==> (#[trigger] raw[i]).1.base_url@ == shipped_base_urls()[i]
    &&& forall|i: int| 0 <= i < raw.len() ==> version_text_of((#[trigger] raw[i]).1.version) == shipped_version(i)
}

fn strings(items: &[&str]) -> (r: Vec<String>)
    ensures
        model_texts(r@) == items@.map_values(|s: &str| s@),
{
    let mut out: Vec<String> = Vec::new();
    let mut i: usize = 0;
    while i < items.len()
        invariant
            i <= items@.len(),
            model_texts(out@) == items@.subrange(0, i as int).map_values(|s: &str| s@),
        decreases items@.len() - i,
    {
        let ghost before = out@;
        out.push(items[i].to_owned());
        proof {
            assert(model_texts(out@) =~= model_texts(before).push(items@[i as int]@));
            assert(items@.subrange(0, i + 1).map_values(|s: &str| s@) =~= items@.subrange(
                0,
                i as int,
            ).map_values(|s: &str| s@).push(items@[i as int]@));
        }
        i = i + 1;
    }
    proof {
        assert(items@.subrange(0, i as int) =~= items@);
    }
    out
}

fn entry(token: &str, models: &[&str], base_url: &str, version: Option<&str>) -> (r: (
    String,
    RawProviderConfig,
))
    ensures
        r.0@ == token@,
        model_texts(r.1.models@) == models@.map_values(|s: &str| s@),
        r.1.base_url@ == base_url@,
        r.1.version is Some <==> version is Some,
        version matches Some(v) ==> r.1.version->Some_0@ == v@,
{
    let version = match version {
        Some(v) => Some(v.to_owned()),
        None => None,
    };
    (token.to_owned(), RawProviderConfig { models: strings(models), base_url: base_url.to_owned(), version })
}

/// The shipped dataset as (provider token, settings) pairs.
pub fn default_entries() -> (r: Vec<(String, RawProviderConfig)>)
    ensures
        is_shipped_dataset(r@),
{
    let mut out: Vec<(String, RawProviderConfig)> = Vec::new();
    out.push(entry("openai", &["gpt-4", "gpt-4-turbo", "gpt-4o", "gpt-4o-mini", "gpt-4o-2024-08-06"], "https://api.openai.com", None));
    out.push(entry("anthropic", &["clio-3-opus-20240229", "clio-3-5-sonnet-20241022", "clio-3-5-haiku-latest"], "https://api.anthropic.com", Some(DEFAULT_ANTHROPIC_VERSION)));
    out.push(entry("gemini", &["gemini-1.5-pro", "gemini-2.0-flash"], "https://generativelanguage.googleapis.com", None));
    out.push(entry("bedrock", &["anthropic.clio-3-5-sonnet-20240620-v1:0"], "https://bedrock-runtime.us-east-1.amazonaws.com", None));
    out.push(entry("ollama", &["llama3.2"], "http://localhost:11434", None));
    out.push(entry("aibadgr", &["basic", "normal", "premium"], "https://aibadgr.com/api/v1", None));
    proof {
        assert(raw_tokens(out@) =~= shipped_tokens());
        assert forall|i: int| 0 <= i < out@.len() implies model_texts((#[trigger] out@[i]).1.models@) == shipped_models(i) by {
            assert(model_texts(out@[i].1.models@) =~= shipped_models(i));
        }
        assert forall|i: int| 0 <= i < out@.len() implies (#[trigger] out@[i]).1.base_url@ == shipped_base_urls()[i] by {}
        assert forall|i: int| 0 <= i < out@.len() implies version_text_of((#[trigger] out@[i]).1.version) == shipped_version(i) by {}
    }
    out
}

/// A name under a provider without a date layout is taken whole.
proof fn lemma_plain_name_parses(p: Seq<char>, s: Seq<char>)
    requires
        p != "anthropic"@,
        p != "openai"@,
        s.len() > 0,
    ensures
        parses(p, s),
{
}

/// A name whose last `width + 1` characters are not a dash and a date is taken whole.
proof fn lemma_undated_name_parses(p: Seq<char>, s: Seq<char>)
    requires
        s.len() > 0,
        p == "openai"@ ==> s.len() <= 10 || s[s.len() - 11] != '-',
        p == "anthropic"@ ==> s.len() <= 8 || s[s.len() - 9] != '-',
    ensures
        parses(p, s),
        dated_suffix(p, s) is None,
{
}

/// The shipped dataset decodes whenever the URL parser accepts its base URLs:
/// its tokens are well-formed and distinct, and all its model names parse.
pub proof fn lemma_shipped_dataset_decodes(raw: Seq<(String, RawProviderConfig)>)
    requires
        is_shipped_dataset(raw),
    ensures
        no_repeats(raw_tokens(raw)),
        forall|i: int| 0 <= i < raw.len() ==> is_valid_token((#[trigger] raw[i]).0@),
        forall|i: int|
            0 <= i < raw.len() ==> (entry_ok((#[trigger] raw[i]).0@, raw[i].1) <==> url_serialization(
                raw[i].1.base_url@,
            ) is Some),
{
    reveal_strlit("openai");
    reveal_strlit("anthropic");
    reveal_strlit("gemini");
    reveal_strlit("bedrock");
    reveal_strlit("ollama");
    reveal_strlit("aibadgr");
    reveal_strlit("gpt-4");
    reveal_strlit("gpt-4-turbo");
    reveal_strlit("gpt-4o");
    reveal_strlit("gpt-4o-mini");
    reveal_strlit("gpt-4o-2024-08-06");
    reveal_strlit("clio-3-opus-20240229");
    reveal_strlit("clio-3-5-sonnet-20241022");
    reveal_strlit("clio-3-5-haiku-latest");
    reveal_strlit("gemini-1.5-pro");
    reveal_strlit("gemini-2.0-flash");
    reveal_strlit("anthropic.clio-3-5-sonnet-20240620-v1:0");
    reveal_strlit("llama3.2");
    reveal_strlit("basic");
    reveal_strlit("normal");
    reveal_strlit("premium");
    let toks = raw_tokens(raw);
    assert(toks == shipped_tokens());
    assert(raw.len() == 6);
    assert forall|i: int| 0 <= i < 6 implies is_valid_token(#[trigger] shipped_tokens()[i]) by {
        crate::provider::lemma_builtin_tokens_valid();
    }
    assert forall|i: int, j: int| 0 <= i < j < 6 implies shipped_tokens()[i] != shipped_tokens()[j] by {
        let a = shipped_tokens()[i];
        let b = shipped_tokens()[j];
        assert(a[0] != b[0] || a[1] != b[1]);
    }
    lemma_pow10_small();
    reveal_with_fuel(digits_value, 5);
    assert forall|i: int, j: int| 0 <= i < 6 && 0 <= j < shipped_models(i).len() implies parses(
        #[trigger] shipped_tokens()[i],
        #[trigger] shipped_models(i)[j],
    ) by {
        let p = shipped_tokens()[i];
        let s = shipped_models(i)[j];
        if i == 0 {
            if j == 4 {
                assert(dated_suffix(p, s) is Some);
                assert(has_valid_date(p, s));
                assert(base_name(p, s).len() > 0);
            } else {
                lemma_undated_name_parses(p, s);
            }
        } else if i == 1 {
            if j == 2 {
                lemma_undated_name_parses(p, s);
            } else {
                assert(dated_suffix(p, s) is Some);
                assert(has_valid_date(p, s));
                assert(base_name(p, s).len() > 0);
            }
        } else {
            lemma_plain_name_parses(p, s);
        }
    }
    assert forall|i: int| 0 <= i < raw.len() implies is_valid_token((#[trigger] raw[i]).0@) by {
        assert(raw[i].0@ == toks[i]);
    }
    assert forall|i: int| 0 <= i < raw.len() implies (entry_ok((#[trigger] raw[i]).0@, raw[i].1)
        <==> url_serialization(raw[i].1.base_url@) is Some) by {
        assert(raw[i].0@ == toks[i]);
        assert forall|j: int| 0 <= j < raw[i].1.models@.len() implies parses(
            raw[i].0@,
            #[trigger] raw[i].1.models@[j]@,
        ) by {
            assert(model_texts(raw[i].1.models@)[j] == raw[i].1.models@[j]@);
            assert(shipped_models(i)[j] == raw[i].1.models@[j]@);
        }
    }
}

pub open spec fn shipped_keys(i: int) -> Seq<(Seq<char>, Seq<char>, crate::model_id::Version)> {
    shipped_models(i).map_values(|s: Seq<char>| parsed_key(shipped_tokens()[i], s))
}

/// Each provider's shipped model names name pairwise different models.
pub proof fn lemma_shipped_models_distinct(i: int)
    requires
        0 <= i < 6,
    ensures
        no_repeats(shipped_keys(i)),
{
    reveal_strlit("openai");
    reveal_strlit("anthropic");
    reveal_strlit("gemini");
    reveal_strlit("bedrock");
    reveal_strlit("ollama");
    reveal_strlit("aibadgr");
    reveal_strlit("gpt-4");
    reveal_strlit("gpt-4-turbo");
    reveal_strlit("gpt-4o");
    reveal_strlit("gpt-4o-mini");
    reveal_strlit("gpt-4o-2024-08-06");
    reveal_strlit("clio-3-opus-20240229");
    reveal_strlit("clio-3-5-sonnet-20241022");
    reveal_strlit("clio-3-5-haiku-latest");
    reveal_strlit("gemini-1.5-pro");
    reveal_strlit("gemini-2.0-flash");
    reveal_strlit("basic");
    reveal_strlit("normal");
    reveal_strlit("premium");
    let p = shipped_tokens()[i];
    let ms = shipped_models(i);
    let ks = shipped_keys(i);
    assert forall|j: int, k: int| 0 <= j < k < ks.len() implies ks[j] != ks[k] by {
        let a = ms[j];
        let b = ms[k];
        assert(ks[j] == parsed_key(p, a));
        assert(ks[k] == parsed_key(p, b));
        if i == 0 {
            if k == 4 {
                assert(b == "gpt-4o-2024-08-06"@);
                assert(b.len() == 17 && b[6] == '-');
                let d = b.subrange(7, 17);
                assert forall|x: int| 0 <= x < d.len() implies if crate::date::DateFormat::Dashed.is_separator_at(x) {
                    #[trigger] d[x] == '-'
                } else {
                    crate::date::is_digit(d[x])
                } by {
                    assert(d[x] == b[x + 7]);
                }
                assert(crate::date::has_date_shape(d, crate::date::DateFormat::Dashed));
                assert(p == "openai"@);
                assert(p[0] != "anthropic"@[0]);
                assert(crate::model_id::date_rule(p) == Some(crate::date::DateFormat::Dashed));
                assert(dated_suffix(p, b) is Some);
                lemma_undated_name_parses(p, a);
                assert(version_of(p, a) != version_of(p, b));
            } else {
                lemma_undated_name_parses(p, a);
                lemma_undated_name_parses(p, b);
                assert(a.len() != b.len() || a[5] != b[5]);
            }
        } else if i == 1 {
            if k == 2 {
                assert(dated_suffix(p, a) is Some);
                lemma_undated_name_parses(p, b);
                assert(version_of(p, a) != version_of(p, b));
            } else {
                assert(dated_suffix(p, a) is Some);
                assert(dated_suffix(p, b) is Some);
                assert(base_name(p, a).len() != base_name(p, b).len());
            }
        } else {
            assert(dated_suffix(p, a) is None);
            assert(a.len() != b.len());
        }
    }
}

/// Entry `e` is what decoding shipped entry `i` gives.
pub open spec fn is_shipped_entry(e: (InferenceProvider, GlobalProviderConfig), i: int) -> bool {
    &&& is_provider_of(e.0, shipped_tokens()[i])
    &&& e.1.model_keys() == shipped_keys(i)
    &&& e.1.model_items().len() == shipped_models(i).len()
    &&& forall|k: int|
        0 <= k < shipped_models(i).len() ==> (#[trigger] e.1.model_items()[k]).is_parse_of(
            e.0,
            shipped_models(i)[k],
        )
    &&& Some(e.1.base_url@) == url_serialization(shipped_base_urls()[i])
    &&& version_text_of(e.1.version) == shipped_version(i)
}

/// Shipped base URL `i` is the first that the URL parser rejects, and `e` reports it.
pub open spec fn is_first_rejected_url(i: int, e: ConfigError) -> bool {
    &&& 0 <= i < 6
    &&& forall|k: int| 0 <= k < i ==> url_serialization(#[trigger] shipped_base_urls()[k]) is Some
    &&& url_serialization(shipped_base_urls()[i]) is None
    &&& e is InvalidBaseUrl
    &&& is_provider_of(e->InvalidBaseUrl_provider, shipped_tokens()[i])
    &&& e->InvalidBaseUrl_url@ == shipped_base_urls()[i]
}

impl ProvidersConfig {
    /// Decodes the shipped dataset. It succeeds exactly when the URL parser
    /// accepts every shipped base URL; then every shipped provider is present,
    /// in order, with its models, base URL and version as shipped. Otherwise
    /// the error names the first rejected base URL.
    pub fn load_default() -> (r: Result<ProvidersConfig, ConfigError>)
        ensures
            r is Ok <==> forall|i: int|
                0 <= i < 6 ==> url_serialization(#[trigger] shipped_base_urls()[i]) is Some,
            r matches Ok(c) ==> c.wf() && c.tokens() == shipped_tokens() && c.entries_spec().len() == 6,
            r matches Ok(c) ==> forall|i: int| 0 <= i < 6 ==> is_shipped_entry(#[trigger] c.entries_spec()[i], i),
            r matches Err(e) ==> exists|i: int| #[trigger] is_first_rejected_url(i, e),
    {
        let raw = default_entries();
        proof {
            lemma_shipped_dataset_decodes(raw@);
            assert(raw@.len() == 6);
        }
        let r = ProvidersConfig::from_raw_entries(&raw);
        proof {
            assert forall|i: int| 0 <= i < 6 implies (entry_ok(raw@[i].0@, raw@[i].1) <==> url_serialization(
                #[trigger] shipped_base_urls()[i],
            ) is Some) by {
                assert(raw@[i].1.base_url@ == shipped_base_urls()[i]);
            }
            if r is Ok {
                let c = r->Ok_0;
                assert forall|i: int| 0 <= i < 6 implies is_shipped_entry(#[trigger] c.entries_spec()[i], i) by {
                    let e = c.entries_spec()[i];
                    assert(raw_tokens(raw@)[i] == raw@[i].0@);
                    assert(shipped_tokens()[i] == raw@[i].0@);
                    assert(model_texts(raw@[i].1.models@) == shipped_models(i));
                    lemma_shipped_models_distinct(i);
                    assert(shipped_keys(i) == model_texts(raw@[i].1.models@).map_values(
                        |s: Seq<char>| parsed_key(e.0@, s),
                    ));
                    lemma_decoded_models_keep_order(e.1, e.0, raw@[i].1);
                    assert(raw@[i].1.base_url@ == shipped_base_urls()[i]);
                    assert(version_text_of(raw@[i].1.version) == shipped_version(i));
                }
            }
            if r is Err {
                let e = r->Err_0;
                let i = choose|i: int| #[trigger] crate::config::is_first_fault(raw@, i, e);
                assert(crate::config::is_first_fault(raw@, i, e));
                let toks = raw_tokens(raw@);
                let seen = toks.subrange(0, i);
                if seen.contains(raw@[i].0@) {
                    let w = choose|w: int| 0 <= w < seen.len() && seen[w] == raw@[i].0@;
                    assert(toks[w] == toks[i]);
                }
                assert(is_valid_token(raw@[i].0@));
                if url_serialization(raw@[i].1.base_url@) is Some && !seen.contains(raw@[i].0@) {
                    let j = choose|j: int| #[trigger] crate::config::is_first_bad_model(raw@[i].0@, raw@[i].1, j);
                    assert(crate::config::is_first_bad_model(raw@[i].0@, raw@[i].1, j));
                    assert(false);
                }
                assert(toks[i] == raw@[i].0@);
                assert forall|k: int| 0 <= k < i implies url_serialization(#[trigger] shipped_base_urls()[k]) is Some by {
                    assert(entry_ok(raw@[k].0@, raw@[k].1));
                }
                assert(is_first_rejected_url(i, e));
            }
        }
        r
    }
}

} // verus!
