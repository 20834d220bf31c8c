//! Model identifiers: a model name scoped to a provider, with the version
//! that the provider's naming rules read from the end of the name.
use vstd::prelude::*;
use vstd::string::*;
use crate::date::{
    date_from_text, date_text, has_date_shape, is_digit, is_valid_date,
    lemma_digits_round_trip, lemma_digits_value_bound, lemma_pow10_small, DateFormat, ReleaseDate,
};
use crate::provider::InferenceProvider;
use crate::text::{push_char, push_text, text_eq};

verus! {

/// How a model's release is qualified.
#[derive(Debug, Clone, Copy, PartialEq, Eq, Structural, Hash)]
pub enum Version {
    /// No version in the name: always the provider's current release.
    ImplicitLatest,
    /// A release date read from the end of the name, with the layout it was written in.
    Date { date: ReleaseDate, format: DateFormat },
}

/// A model name with its version qualifier.
#[derive(Debug, Clone, PartialEq, Eq, Hash)]
pub struct ModelIdWithVersion {
    pub model: String,
    pub version: Version,
}

/// A model of one provider.
#[derive(Debug, Clone, Hash)]
pub enum ModelId {
    ModelIdWithVersion { provider: InferenceProvider, id: ModelIdWithVersion },
}

/// Why a model name was rejected.
#[derive(Debug, Clone, PartialEq, Eq)]
pub enum ModelIdError {
    /// The name ends in a date of the provider's layout that is not a calendar day.
    InvalidVersionDate { provider: InferenceProvider, model: String, digits: String },
    /// Nothing is left of the name once its version is taken off.
    EmptyModelName { provider: InferenceProvider, model: String },
}

/// The date layout that the provider written as token `p` appends to its
/// model names, if any.
pub open spec fn date_rule(p: Seq<char>) -> Option<DateFormat> {
    if p == "anthropic"@ {
        Some(DateFormat::Compact)
    } else if p == "openai"@ {
        Some(DateFormat::Dashed)
    } else {
        None
    }
}

/// The layout of the date that `s` ends in under `p`'s rule: a dash, then a
/// date of the provider's layout.
pub open spec fn dated_suffix(p: Seq<char>, s: Seq<char>) -> Option<DateFormat> {
    match date_rule(p) {
        Some(f) => if s.len() > f.width() && s[s.len() - f.width() - 1] == '-'
            && has_date_shape(s.subrange(s.len() - f.width(), s.len() as int), f) {
            Some(f)
        } else {
            None
        },
        None => None,
    }
}

/// The characters of the date at the end of `s`.
pub open spec fn version_digits(s: Seq<char>, f: DateFormat) -> Seq<char> {
    s.subrange(s.len() - f.width(), s.len() as int)
}

/// The model name of `s` under `p`: `s` without its dated suffix.
pub open spec fn base_name(p: Seq<char>, s: Seq<char>) -> Seq<char> {
    match dated_suffix(p, s) {
        Some(f) => s.subrange(0, s.len() - f.width() - 1),
        None => s,
    }
}

/// The version of `s` under `p`.
pub open spec fn version_of(p: Seq<char>, s: Seq<char>) -> Version {
    match dated_suffix(p, s) {
        Some(f) => Version::Date { date: date_from_text(version_digits(s, f), f), format: f },
        None => Version::ImplicitLatest,
    }
}

/// The date read from `s`, if any, is a calendar day.
pub open spec fn has_valid_date(p: Seq<char>, s: Seq<char>) -> bool {
    match version_of(p, s) {
        Version::Date { date, .. } => is_valid_date(date),
        Version::ImplicitLatest => true,
    }
}

/// `s` names a model of `p`.
pub open spec fn parses(p: Seq<char>, s: Seq<char>) -> bool {
    has_valid_date(p, s) && base_name(p, s).len() > 0
}

/// What a version adds to a model name when written out.
pub open spec fn version_text(v: Version) -> Seq<char> {
    match v {
        Version::ImplicitLatest => Seq::empty(),
        Version::Date { date, format } => seq!['-'] + date_text(date, format),
    }
}

/// `e` is the error that rejecting `s` under `p` reports: a bad date is
/// reported before an empty name.
pub open spec fn is_parse_error_of(e: ModelIdError, p: InferenceProvider, s: Seq<char>) -> bool {
    if !has_valid_date(p@, s) {
        e matches ModelIdError::InvalidVersionDate { provider, model, digits } && provider == p
            && model@ == s && digits@ == version_digits(s, dated_suffix(p@, s)->Some_0)
    } else {
        e matches ModelIdError::EmptyModelName { provider, model } && provider == p && model@ == s
    }
}

impl ModelId {
    pub open spec fn provider_spec(&self) -> InferenceProvider {
        match self {
            ModelId::ModelIdWithVersion { provider, .. } => *provider,
        }
    }

    pub open spec fn model_spec(&self) -> Seq<char> {
        match self {
            ModelId::ModelIdWithVersion { id, .. } => id.model@,
        }
    }

    pub open spec fn version_spec(&self) -> Version {
        match self {
            ModelId::ModelIdWithVersion { id, .. } => id.version,
        }
    }

    /// The model written out: its name, then its version if dated.
    pub open spec fn text(&self) -> Seq<char> {
        self.model_spec() + version_text(self.version_spec())
    }

    /// This model is what parsing `s` under `p` gives.
    pub open spec fn is_parse_of(&self, p: InferenceProvider, s: Seq<char>) -> bool {
        self.provider_spec() == p && self.model_spec() == base_name(p@, s) && self.version_spec()
            == version_of(p@, s)
    }

    /// Parses a model name under the naming rules of `provider`.
    pub fn from_str_and_provider(provider: InferenceProvider, s: &str) -> (r: Result<
        ModelId,
        ModelIdError,
    >)
        ensures
            r is Ok <==> parses(provider@, s@),
            r matches Ok(m) ==> m.is_parse_of(provider, s@),
            r matches Err(e) ==> is_parse_error_of(e, provider, s@),
    {
        let n = s.unicode_len();
        let token = provider.as_token();
        let rule: Option<DateFormat> = if text_eq(token.as_str(), "anthropic") {
            Some(DateFormat::Compact)
        } else if text_eq(token.as_str(), "openai") {
            Some(DateFormat::Dashed)
        } else {
            None
        };
        if let Some(f) = rule {
            let w: usize = match f {
                DateFormat::Compact => 8,
                DateFormat::Dashed => 10,
            };
            if n > w && s.get_char(n - w - 1) == '-' {
                let digits = s.substring_char(n - w, n);
                if let Some(date) = ReleaseDate::from_text(digits, f) {
                    if !date.is_valid() {
                        return Err(
                            ModelIdError::InvalidVersionDate {
                                provider,
                                model: s.to_owned(),
                                digits: digits.to_owned(),
                            },
                        );
                    }
                    if n - w - 1 == 0 {
                        return Err(ModelIdError::EmptyModelName { provider, model: s.to_owned() });
                    }
                    let base = s.substring_char(0, n - w - 1);
                    return Ok(
                        ModelId::ModelIdWithVersion {
                            provider,
                            id: ModelIdWithVersion {
                                model: base.to_owned(),
                                version: Version::Date { date, format: f },
                            },
                        },
                    );
                }
            }
        }
        if n == 0 {
            return Err(ModelIdError::EmptyModelName { provider, model: s.to_owned() });
        }
        Ok(
            ModelId::ModelIdWithVersion {
                provider,
                id: ModelIdWithVersion { model: s.to_owned(), version: Version::ImplicitLatest },
            },
        )
    }

    /// The provider that this model belongs to.
    pub fn provider(&self) -> (r: &InferenceProvider)
        ensures
            *r == self.provider_spec(),
    {
        match self {
            ModelId::ModelIdWithVersion { provider, .. } => provider,
        }
    }

    /// The model written out as configuration text.
    pub fn to_string(&self) -> (r: String)
        ensures
            r@ == self.text(),
    {
        match self {
            ModelId::ModelIdWithVersion { id, .. } => {
                let mut out = String::new();
                push_text(&mut out, id.model.as_str());
                match id.version {
                    Version::ImplicitLatest => {},
                    Version::Date { date, format } => {
                        push_char(&mut out, '-');
                        date.write_to(&mut out, format);
                    },
                }
                assert(out@ =~= self.text());
                out
            },
        }
    }
}

/// Formatting a parsed model and parsing the text again under the same
/// provider gives the same model.
pub proof fn lemma_format_parse_round_trip(m: ModelId, p: InferenceProvider, raw: Seq<char>)
    requires
        parses(p@, raw),
        m.is_parse_of(p, raw),
    ensures
        parses(p@, m.text()),
        m.is_parse_of(p, m.text()),
{
    let t = m.text();
    match dated_suffix(p@, raw) {
        None => {
            assert(t =~= raw);
        },
        Some(f) => {
            let d = version_digits(raw, f);
            let date = date_from_text(d, f);
            let w = f.width();
            let ms = f.month_start();
            let ds = f.day_start();
            assert forall|i: int| 0 <= i < 4 implies is_digit(#[trigger] d.subrange(0, 4)[i]) by {
                assert(d.subrange(0, 4)[i] == d[i]);
            }
            assert forall|i: int| 0 <= i < 2 implies is_digit(#[trigger] d.subrange(ms, ms + 2)[i]) by {
                assert(d.subrange(ms, ms + 2)[i] == d[ms + i]);
                assert(!f.is_separator_at(ms + i));
            }
            assert forall|i: int| 0 <= i < 2 implies is_digit(#[trigger] d.subrange(ds, ds + 2)[i]) by {
                assert(d.subrange(ds, ds + 2)[i] == d[ds + i]);
                assert(!f.is_separator_at(ds + i));
            }
            lemma_digits_value_bound(d.subrange(0, 4));
            lemma_digits_value_bound(d.subrange(ms, ms + 2));
            lemma_digits_value_bound(d.subrange(ds, ds + 2));
            lemma_pow10_small();
            lemma_digits_round_trip(date.year as int, 4);
            lemma_digits_round_trip(date.month as int, 2);
            lemma_digits_round_trip(date.day as int, 2);
            let dt = date_text(date, f);
            let b = base_name(p@, raw);
            assert(t =~= b + seq!['-'] + dt);
            assert(dt.len() == w);
            let e = t.subrange(t.len() - w, t.len() as int);
            assert(e =~= dt);
            assert(t[t.len() - w - 1] == '-');
            let yt = crate::date::digits_text(date.year as int, 4);
            let mt = crate::date::digits_text(date.month as int, 2);
            let dd = crate::date::digits_text(date.day as int, 2);
            assert(dt.subrange(0, 4) =~= yt);
            assert(dt.subrange(ms, ms + 2) =~= mt);
            assert(dt.subrange(ds, ds + 2) =~= dd);
            assert forall|i: int| 0 <= i < dt.len() implies if f.is_separator_at(i) {
                #[trigger] dt[i] == '-'
            } else {
                is_digit(dt[i])
            } by {
                if i < 4 {
                    assert(dt[i] == yt[i]);
                } else if ms <= i < ms + 2 {
                    assert(dt[i] == mt[i - ms]);
                } else if ds <= i < ds + 2 {
                    assert(dt[i] == dd[i - ds]);
                }
            }
            assert(has_date_shape(dt, f));
            assert(dated_suffix(p@, t) == Some(f));
            assert(date_from_text(dt, f) == date);
            assert(base_name(p@, t) =~= b);
        },
    }
}

/// Two models are equal when their providers are equal and they have the
/// same name and version.
pub open spec fn same_model_spec(a: ModelId, b: ModelId) -> bool {
    &&& (a.provider_spec() is Named <==> b.provider_spec() is Named)
    &&& a.provider_spec()@ == b.provider_spec()@
    &&& a.model_spec() == b.model_spec()
    &&& a.version_spec() == b.version_spec()
}

impl PartialEq for ModelId {
    fn eq(&self, other: &ModelId) -> (r: bool) {
        match (self, other) {
            (
                ModelId::ModelIdWithVersion { provider: p, id: a },
                ModelId::ModelIdWithVersion { provider: q, id: b },
            ) => {
                *p == *q && text_eq(a.model.as_str(), b.model.as_str()) && a.version == b.version
            },
        }
    }
}

impl vstd::std_specs::cmp::PartialEqSpecImpl for ModelId {
    open spec fn obeys_eq_spec() -> bool {
        true
    }

    open spec fn eq_spec(&self, other: &ModelId) -> bool {
        same_model_spec(*self, *other)
    }
}

impl Eq for ModelId {
}

} // verus!
