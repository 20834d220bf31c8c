//! Provider identity: the built-in inference providers and an open variant
//! for providers that are only named in configuration.
use vstd::prelude::*;
use vstd::string::*;
use crate::text::text_eq;

verus! {

/// An inference provider, keyed in configuration by a lowercase token.
#[derive(Debug, Clone, Hash)]
pub enum InferenceProvider {
    OpenAI,
    Anthropic,
    Bedrock,
    Ollama,
    GoogleGemini,
    /// A provider without built-in support, holding its token verbatim.
    Named(String),
}

/// A character allowed in a provider token: lowercase ASCII letter, digit or `-`.
pub open spec fn is_token_char(c: char) -> bool {
    ('a' <= c && c <= 'z') || ('0' <= c && c <= '9') || c == '-'
}

/// A well-formed provider token: non-empty, lowercase kebab-case.
pub open spec fn is_valid_token(t: Seq<char>) -> bool {
    t.len() > 0 && forall|i: int| 0 <= i < t.len() ==> is_token_char(#[trigger] t[i])
}

/// The token of a built-in provider.
pub open spec fn is_builtin_token(t: Seq<char>) -> bool {
    t == "openai"@ || t == "anthropic"@ || t == "bedrock"@ || t == "ollama"@ || t == "gemini"@
}

/// Every built-in token is itself well-formed.
pub proof fn lemma_builtin_tokens_valid()
    ensures
        is_valid_token("openai"@),
        is_valid_token("anthropic"@),
        is_valid_token("bedrock"@),
        is_valid_token("ollama"@),
        is_valid_token("gemini"@),
{
    reveal_strlit("openai");
    reveal_strlit("anthropic");
    reveal_strlit("bedrock");
    reveal_strlit("ollama");
    reveal_strlit("gemini");
}

/// Two providers are equal when both are built in or both are named, and
/// they are written as the same token.
pub open spec fn same_provider(a: InferenceProvider, b: InferenceProvider) -> bool {
    (a is Named <==> b is Named) && a@ == b@
}

impl View for InferenceProvider {
    type V = Seq<char>;

    /// A provider is seen as its token.
    open spec fn view(&self) -> Seq<char> {
        match self {
            InferenceProvider::OpenAI => "openai"@,
            InferenceProvider::Anthropic => "anthropic"@,
            InferenceProvider::Bedrock => "bedrock"@,
            InferenceProvider::Ollama => "ollama"@,
            InferenceProvider::GoogleGemini => "gemini"@,
            InferenceProvider::Named(s) => s@,
        }
    }
}

impl InferenceProvider {
    /// The open variant holds a well-formed token that no built-in provider uses,
    /// so that a provider and its token determine each other.
    pub open spec fn wf(&self) -> bool {
        match self {
            InferenceProvider::Named(s) => is_valid_token(s@) && !is_builtin_token(s@),
            _ => true,
        }
    }

    /// Decodes a provider token. Unknown well-formed tokens give the open
    /// variant; a token that is not lowercase kebab-case gives `None`.
    pub fn from_token(t: &str) -> (r: Option<InferenceProvider>)
        ensures
            r is Some <==> is_valid_token(t@),
            r matches Some(p) ==> p@ == t@ && p.wf(),
            r matches Some(p) ==> (p is Named <==> !is_builtin_token(t@)),
    {
        proof {
            lemma_builtin_tokens_valid();
        }
        if text_eq(t, "openai") {
            return Some(InferenceProvider::OpenAI);
        }
        if text_eq(t, "anthropic") {
            return Some(InferenceProvider::Anthropic);
        }
        if text_eq(t, "bedrock") {
            return Some(InferenceProvider::Bedrock);
        }
        if text_eq(t, "ollama") {
            return Some(InferenceProvider::Ollama);
        }
        if text_eq(t, "gemini") {
            return Some(InferenceProvider::GoogleGemini);
        }
        let n = t.unicode_len();
        if n == 0 {
            return None;
        }
        let mut i: usize = 0;
        while i < n
            invariant
                n == t@.len(),
                i <= n,
                forall|k: int| 0 <= k < i ==> is_token_char(#[trigger] t@[k]),
            decreases n - i,
        {
            let c = t.get_char(i);
            if !(('a' <= c && c <= 'z') || ('0' <= c && c <= '9') || c == '-') {
                return None;
            }
            i = i + 1;
        }
        Some(InferenceProvider::Named(t.to_owned()))
    }

    /// The token that this provider is written as.
    pub fn as_token(&self) -> (r: String)
        ensures
            r@ == self@,
    {
        match self {
            InferenceProvider::OpenAI => "openai".to_owned(),
            InferenceProvider::Anthropic => "anthropic".to_owned(),
            InferenceProvider::Bedrock => "bedrock".to_owned(),
            InferenceProvider::Ollama => "ollama".to_owned(),
            InferenceProvider::GoogleGemini => "gemini".to_owned(),
            InferenceProvider::Named(s) => s.clone(),
        }
    }

    /// A copy of this provider.
    pub fn copied(&self) -> (r: InferenceProvider)
        ensures
            r == *self,
    {
        match self {
            InferenceProvider::OpenAI => InferenceProvider::OpenAI,
            InferenceProvider::Anthropic => InferenceProvider::Anthropic,
            InferenceProvider::Bedrock => InferenceProvider::Bedrock,
            InferenceProvider::Ollama => InferenceProvider::Ollama,
            InferenceProvider::GoogleGemini => InferenceProvider::GoogleGemini,
            InferenceProvider::Named(s) => InferenceProvider::Named(s.clone()),
        }
    }

    /// True when both providers are written as the same token.
    pub fn same_token(&self, other: &InferenceProvider) -> (r: bool)
        ensures
            r == (self@ == other@),
    {
        let a = self.as_token();
        let b = other.as_token();
        text_eq(a.as_str(), b.as_str())
    }
}

impl PartialEq for InferenceProvider {
    fn eq(&self, other: &InferenceProvider) -> (r: bool) {
        let a_named = match self {
            InferenceProvider::Named(_) => true,
            _ => false,
        };
        let b_named = match other {
            InferenceProvider::Named(_) => true,
            _ => false,
        };
        a_named == b_named && self.same_token(other)
    }
}

impl vstd::std_specs::cmp::PartialEqSpecImpl for InferenceProvider {
    open spec fn obeys_eq_spec() -> bool {
        true
    }

    /// Two providers are equal when both are built in or both are named,
    /// and they are written as the same token.
    open spec fn eq_spec(&self, other: &InferenceProvider) -> bool {
        same_provider(*self, *other)
    }
}

impl Eq for InferenceProvider {
}

} // verus!
