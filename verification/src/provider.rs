//! The five OpenAI-compatible LLM backends and their defaults.
use vstd::prelude::*;
use crate::text::{ascii_lower, chars_eq_ignore_ascii_case, chars_of, eq_ignore_ascii_case};

verus! {

#[derive(Debug, Clone, Copy, PartialEq, Eq, Structural, Hash)]
pub enum ProviderKind {
    Ollama,
    LmStudio,
    OpenRouter,
    Hermes,
    OpenClaw,
}

/// Every provider, in menu order.
pub open spec fn all_kinds() -> Seq<ProviderKind> {
    seq![
        ProviderKind::Ollama,
        ProviderKind::LmStudio,
        ProviderKind::OpenRouter,
        ProviderKind::Hermes,
        ProviderKind::OpenClaw,
    ]
}

impl ProviderKind {
    /// Every provider, in menu order.
    pub fn all() -> (r: Vec<ProviderKind>)
        ensures
            r@ == all_kinds(),
    {
        let mut v: Vec<ProviderKind> = Vec::new();
        v.push(ProviderKind::Ollama);
        v.push(ProviderKind::LmStudio);
        v.push(ProviderKind::OpenRouter);
        v.push(ProviderKind::Hermes);
        v.push(ProviderKind::OpenClaw);
        assert(v@ =~= all_kinds());
        v
    }

    /// The identifier used in the config file and on the command line.
    pub open spec fn spec_as_str(self) -> Seq<char> {
        match self {
            ProviderKind::Ollama => "ollama"@,
            ProviderKind::LmStudio => "lmStudio"@,
            ProviderKind::OpenRouter => "openRouter"@,
            ProviderKind::Hermes => "hermes"@,
            ProviderKind::OpenClaw => "openClaw"@,
        }
    }

    pub fn as_str(&self) -> (r: &'static str)
        ensures
            r@ == self.spec_as_str(),
    {
        match self {
            ProviderKind::Ollama => "ollama",
            ProviderKind::LmStudio => "lmStudio",
            ProviderKind::OpenRouter => "openRouter",
            ProviderKind::Hermes => "hermes",
            ProviderKind::OpenClaw => "openClaw",
        }
    }

    /// The name shown to people.
    pub open spec fn spec_display_name(self) -> Seq<char> {
        match self {
            ProviderKind::Ollama => "Ollama"@,
            ProviderKind::LmStudio => "LM Studio"@,
            ProviderKind::OpenRouter => "OpenRouter"@,
            ProviderKind::Hermes => "Hermes"@,
            ProviderKind::OpenClaw => "OpenClaw"@,
        }
    }

    pub fn display_name(&self) -> (r: &'static str)
        ensures
            r@ == self.spec_display_name(),
    {
        match self {
            ProviderKind::Ollama => "Ollama",
            ProviderKind::LmStudio => "LM Studio",
            ProviderKind::OpenRouter => "OpenRouter",
            ProviderKind::Hermes => "Hermes",
            ProviderKind::OpenClaw => "OpenClaw",
        }
    }

    pub open spec fn spec_default_base_url(self) -> Seq<char> {
        match self {
            ProviderKind::Ollama => "http://127.0.0.1:11434"@,
            ProviderKind::LmStudio => "http://127.0.0.1:1234"@,
            ProviderKind::OpenRouter => "https://openrouter.ai/api/v1"@,
            ProviderKind::Hermes => "http://127.0.0.1:8642"@,
            ProviderKind::OpenClaw => "http://127.0.0.1:18789"@,
        }
    }

    pub fn default_base_url(&self) -> (r: &'static str)
        ensures
            r@ == self.spec_default_base_url(),
    {
        match self {
            ProviderKind::Ollama => "http://127.0.0.1:11434",
            ProviderKind::LmStudio => "http://127.0.0.1:1234",
            ProviderKind::OpenRouter => "https://openrouter.ai/api/v1",
            ProviderKind::Hermes => "http://127.0.0.1:8642",
            ProviderKind::OpenClaw => "http://127.0.0.1:18789",
        }
    }

    /// OpenRouter, Hermes and OpenClaw need an API key; the local servers do not.
    pub open spec fn spec_requires_api_key(self) -> bool {
        self == ProviderKind::OpenRouter || self == ProviderKind::Hermes || self
            == ProviderKind::OpenClaw
    }

    pub fn requires_api_key(&self) -> (r: bool)
        ensures
            r == self.spec_requires_api_key(),
    {
        match self {
            ProviderKind::OpenRouter | ProviderKind::Hermes | ProviderKind::OpenClaw => true,
            _ => false,
        }
    }

    /// The model offered by default; empty for the local servers.
    pub open spec fn spec_suggested_model(self) -> Seq<char> {
        match self {
            ProviderKind::Ollama => ""@,
            ProviderKind::LmStudio => ""@,
            ProviderKind::OpenRouter => "openai/gpt-4o-mini"@,
            ProviderKind::Hermes => "hermes-agent"@,
            ProviderKind::OpenClaw => "openclaw/default"@,
        }
    }

    pub fn suggested_model(&self) -> (r: &'static str)
        ensures
            r@ == self.spec_suggested_model(),
    {
        match self {
            ProviderKind::Ollama | ProviderKind::LmStudio => "",
            ProviderKind::OpenRouter => "openai/gpt-4o-mini",
            ProviderKind::Hermes => "hermes-agent",
            ProviderKind::OpenClaw => "openclaw/default",
        }
    }

    /// `s` names this provider: its identifier or its display name, ignoring
    /// ASCII case.
    pub open spec fn is_named(self, s: Seq<char>) -> bool {
        eq_ignore_ascii_case(self.spec_as_str(), s) || eq_ignore_ascii_case(
            self.spec_display_name(),
            s,
        )
    }

    /// The first provider, in menu order, that `s` names.
    pub open spec fn spec_parse(s: Seq<char>) -> Option<ProviderKind> {
        if ProviderKind::Ollama.is_named(s) {
            Some(ProviderKind::Ollama)
        } else if ProviderKind::LmStudio.is_named(s) {
            Some(ProviderKind::LmStudio)
        } else if ProviderKind::OpenRouter.is_named(s) {
            Some(ProviderKind::OpenRouter)
        } else if ProviderKind::Hermes.is_named(s) {
            Some(ProviderKind::Hermes)
        } else if ProviderKind::OpenClaw.is_named(s) {
            Some(ProviderKind::OpenClaw)
        } else {
            None
        }
    }

    fn named_by(&self, s: &Vec<char>) -> (r: bool)
        ensures
            r == self.is_named(s@),
    {
        let id = chars_of(self.as_str());
        let shown = chars_of(self.display_name());
        chars_eq_ignore_ascii_case(&id, s) || chars_eq_ignore_ascii_case(&shown, s)
    }

    /// The provider `s` names (identifier or display name, any ASCII case).
    pub fn parse(s: &str) -> (r: Option<ProviderKind>)
        ensures
            r == ProviderKind::spec_parse(s@),
    {
        let v = chars_of(s);
        if ProviderKind::Ollama.named_by(&v) {
            Some(ProviderKind::Ollama)
        } else if ProviderKind::LmStudio.named_by(&v) {
            Some(ProviderKind::LmStudio)
        } else if ProviderKind::OpenRouter.named_by(&v) {
            Some(ProviderKind::OpenRouter)
        } else if ProviderKind::Hermes.named_by(&v) {
            Some(ProviderKind::Hermes)
        } else if ProviderKind::OpenClaw.named_by(&v) {
            Some(ProviderKind::OpenClaw)
        } else {
            None
        }
    }
}

proof fn lemma_ignore_case_equiv(a: Seq<char>, b: Seq<char>, c: Seq<char>)
    ensures
        eq_ignore_ascii_case(a, a),
        eq_ignore_ascii_case(a, b) ==> eq_ignore_ascii_case(b, a),
        eq_ignore_ascii_case(a, b) && eq_ignore_ascii_case(b, c) ==> eq_ignore_ascii_case(a, c),
{
    if eq_ignore_ascii_case(a, b) && eq_ignore_ascii_case(b, c) {
        assert forall|i: int| 0 <= i < a.len() implies ascii_lower(#[trigger] a[i]) == ascii_lower(
            c[i],
        ) by {
            assert(ascii_lower(a[i]) == ascii_lower(b[i]));
            assert(ascii_lower(b[i]) == ascii_lower(c[i]));
        }
    }
}

/// Law: parsing looks at a name only up to ASCII case.
pub proof fn law_parse_ignores_ascii_case(s: Seq<char>, t: Seq<char>)
    requires
        eq_ignore_ascii_case(s, t),
    ensures
        ProviderKind::spec_parse(s) == ProviderKind::spec_parse(t),
{
    let ks = all_kinds();
    assert forall|k: ProviderKind| #[trigger] k.is_named(s) == k.is_named(t) by {
        lemma_ignore_case_equiv(k.spec_as_str(), s, t);
        lemma_ignore_case_equiv(k.spec_display_name(), s, t);
        lemma_ignore_case_equiv(s, t, k.spec_as_str());
        lemma_ignore_case_equiv(s, t, k.spec_display_name());
        lemma_ignore_case_equiv(t, s, k.spec_as_str());
        lemma_ignore_case_equiv(t, s, k.spec_display_name());
        lemma_ignore_case_equiv(k.spec_as_str(), t, s);
        lemma_ignore_case_equiv(k.spec_display_name(), t, s);
    }
    assert(ProviderKind::Ollama.is_named(s) == ProviderKind::Ollama.is_named(t));
    assert(ProviderKind::LmStudio.is_named(s) == ProviderKind::LmStudio.is_named(t));
    assert(ProviderKind::OpenRouter.is_named(s) == ProviderKind::OpenRouter.is_named(t));
    assert(ProviderKind::Hermes.is_named(s) == ProviderKind::Hermes.is_named(t));
    assert(ProviderKind::OpenClaw.is_named(s) == ProviderKind::OpenClaw.is_named(t));
}

/// Law: every provider's identifier and display name parse back to it.
pub proof fn law_parse_names_roundtrip(k: ProviderKind)
    ensures
        ProviderKind::spec_parse(k.spec_as_str()) == Some(k),
        ProviderKind::spec_parse(k.spec_display_name()) == Some(k),
{
    reveal_strlit("ollama");
    reveal_strlit("lmStudio");
    reveal_strlit("openRouter");
    reveal_strlit("hermes");
    reveal_strlit("openClaw");
    reveal_strlit("Ollama");
    reveal_strlit("LM Studio");
    reveal_strlit("OpenRouter");
    reveal_strlit("Hermes");
    reveal_strlit("OpenClaw");
    lemma_ignore_case_equiv(k.spec_as_str(), k.spec_as_str(), k.spec_as_str());
    lemma_ignore_case_equiv(k.spec_display_name(), k.spec_display_name(), k.spec_display_name());
    // Names of different providers never match each other.
    assert(!eq_ignore_ascii_case("ollama"@, "hermes"@)) by {
        assert(ascii_lower("ollama"@[0]) != ascii_lower("hermes"@[0]));
    }
    assert(!eq_ignore_ascii_case("Ollama"@, "hermes"@)) by {
        assert(ascii_lower("Ollama"@[0]) != ascii_lower("hermes"@[0]));
    }
    assert(!eq_ignore_ascii_case("ollama"@, "Hermes"@)) by {
        assert(ascii_lower("ollama"@[0]) != ascii_lower("Hermes"@[0]));
    }
    assert(!eq_ignore_ascii_case("Ollama"@, "Hermes"@)) by {
        assert(ascii_lower("Ollama"@[0]) != ascii_lower("Hermes"@[0]));
    }
    assert(!eq_ignore_ascii_case("lmStudio"@, "openClaw"@)) by {
        assert(ascii_lower("lmStudio"@[0]) != ascii_lower("openClaw"@[0]));
    }
    assert(!eq_ignore_ascii_case("lmStudio"@, "OpenClaw"@)) by {
        assert(ascii_lower("lmStudio"@[0]) != ascii_lower("OpenClaw"@[0]));
    }
}

} // verus!
