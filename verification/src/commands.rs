//! The decisions the plugin commands make, apart from their I/O: what
//! `bashify` prints, how `llm setup` picks its settings, what `llm status`
//! reports, and which messages `ask`/`plan` send.
use vstd::prelude::*;
use crate::config::{
    not_configured_message, opt_view, resolve_active, Config, ProviderConfig, ProviderSettings,
};
use crate::llm_client::ChatMessage;
use crate::provider::{all_kinds, ProviderKind};
use crate::rules::{str_views, TranslateResult};
use crate::text::{
    all_ws, chars_of, decimal, decimal_exec, digits_value, is_all_ws, is_ascii_digit, is_ws, join,
    lemma_decimal_value, lemma_join_step, lemma_trim_end_take, lemma_trim_start_skip, push_all,
    push_str, string_from_chars, trim, trim_exec,
};
use crate::transcript::TranscriptEntry;

verus! {

// ---------------------------------------------------------------------
// bashify
// ---------------------------------------------------------------------

/// What `bashify` prints: the translation (or a `-`/`+` diff of input and
/// translation), followed with `--explain` by a note of the rules that fired.
pub open spec fn spec_bashify_output(
    text: Seq<char>,
    translated: Seq<char>,
    fired: Seq<Seq<char>>,
    diff: bool,
    explain: bool,
) -> Seq<char> {
    let shown = if diff {
        "- "@ + text + "\n+ "@ + translated
    } else {
        translated
    };
    if !explain {
        shown
    } else if fired.len() == 0 {
        shown + "\n# bashify: no rules fired, input unchanged"@
    } else {
        shown + "\n# bashify: rules fired: "@ + join(fired, ", "@)
    }
}

fn join_strs(parts: &Vec<&'static str>, sep: &str) -> (r: Vec<char>)
    ensures
        r@ == join(str_views(parts@), sep@),
{
    let ghost ps = str_views(parts@);
    let mut out: Vec<char> = Vec::new();
    let mut i: usize = 0;
    assert(ps.take(0) =~= Seq::<Seq<char>>::empty());
    while i < parts.len()
        invariant
            ps == str_views(parts@),
            0 <= i <= parts@.len(),
            out@ == join(ps.take(i as int), sep@),
        decreases parts@.len() - i,
    {
        proof {
            lemma_join_step(ps, sep@, i as int);
        }
        if i > 0 {
            push_str(&mut out, sep);
        } else {
            assert(out@ =~= Seq::<char>::empty());
        }
        push_str(&mut out, parts[i]);
        i = i + 1;
    }
    assert(ps.take(parts@.len() as int) =~= ps);
    out
}

pub fn bashify_output(text: &str, result: &TranslateResult, diff: bool, explain: bool) -> (r: String)
    ensures
        r@ == spec_bashify_output(
            text@,
            result.translated@,
            str_views(result.rules_fired@),
            diff,
            explain,
        ),
{
    let mut out: Vec<char> = Vec::new();
    if diff {
        push_str(&mut out, "- ");
        push_str(&mut out, text);
        push_str(&mut out, "\n+ ");
    }
    push_str(&mut out, result.translated.as_str());
    if explain {
        if result.rules_fired.len() == 0 {
            push_str(&mut out, "\n# bashify: no rules fired, input unchanged");
        } else {
            push_str(&mut out, "\n# bashify: rules fired: ");
            let names = join_strs(&result.rules_fired, ", ");
            push_all(&mut out, &names);
        }
    }
    assert(out@ =~= spec_bashify_output(
        text@,
        result.translated@,
        str_views(result.rules_fired@),
        diff,
        explain,
    ));
    string_from_chars(&out)
}

// ---------------------------------------------------------------------
// llm setup
// ---------------------------------------------------------------------

/// The settings `llm setup` is about to store.
pub struct SetupChoice {
    pub kind: ProviderKind,
    pub base_url: String,
    pub model: String,
    pub api_key: Option<String>,
}

#[derive(Debug)]
pub enum SetupError {
    /// `--provider` named no provider.
    UnknownProvider,
    /// The wizard's provider answer (trimmed) chose nothing.
    InvalidChoice(String),
    /// The provider needs an API key and none (or an empty one) was given.
    MissingApiKey(ProviderKind),
}

/// The provider identifiers, in menu order, joined with `, `.
pub open spec fn provider_list() -> Seq<char> {
    join(all_kinds().map_values(|k: ProviderKind| k.spec_as_str()), ", "@)
}

impl SetupError {
    pub open spec fn spec_title(&self) -> Seq<char> {
        match self {
            SetupError::UnknownProvider => "Unknown provider"@,
            SetupError::InvalidChoice(_) => "Invalid provider choice"@,
            SetupError::MissingApiKey(_) => "Missing API key"@,
        }
    }

    pub open spec fn spec_label(&self) -> Seq<char> {
        match self {
            SetupError::UnknownProvider => "expected one of: "@ + provider_list(),
            SetupError::InvalidChoice(c) => c@,
            SetupError::MissingApiKey(k) => k.spec_display_name()
                + " requires an API key (--api-key, or answer the prompt)"@,
        }
    }

    /// The error's headline.
    pub fn title(&self) -> (r: &'static str)
        ensures
            r@ == self.spec_title(),
    {
        match self {
            SetupError::UnknownProvider => "Unknown provider",
            SetupError::InvalidChoice(_) => "Invalid provider choice",
            SetupError::MissingApiKey(_) => "Missing API key",
        }
    }

    /// The error's explanation.
    pub fn label(&self) -> (r: String)
        ensures
            r@ == self.spec_label(),
    {
        let mut out: Vec<char> = Vec::new();
        match self {
            SetupError::UnknownProvider => {
                push_str(&mut out, "expected one of: ");
                let kinds = ProviderKind::all();
                let mut names: Vec<&'static str> = Vec::new();
                let mut i: usize = 0;
                while i < kinds.len()
                    invariant
                        kinds@ == all_kinds(),
                        0 <= i <= kinds@.len(),
                        names@.len() == i,
                        forall|j: int| 0 <= j < i ==> (#[trigger] names@[j])@ == kinds@[j].spec_as_str(),
                    decreases kinds@.len() - i,
                {
                    names.push(kinds[i].as_str());
                    i = i + 1;
                }
                assert(str_views(names@) =~= all_kinds().map_values(|k: ProviderKind| k.spec_as_str()));
                let list = join_strs(&names, ", ");
                push_all(&mut out, &list);
            },
            SetupError::InvalidChoice(c) => push_str(&mut out, c.as_str()),
            SetupError::MissingApiKey(k) => {
                push_str(&mut out, k.display_name());
                push_str(&mut out, " requires an API key (--api-key, or answer the prompt)");
            },
        }
        string_from_chars(&out)
    }
}

/// The given string, or `default` when there is none.
pub open spec fn or_default(given: Option<Seq<char>>, default: Seq<char>) -> Seq<char> {
    match given {
        Some(s) => s,
        None => default,
    }
}

fn string_or(given: Option<String>, default: &str) -> (r: String)
    ensures
        r@ == or_default(opt_view(given), default@),
{
    match given {
        Some(s) => s,
        None => String::from_str(default),
    }
}

/// The settings from `--provider` and friends: the named provider, with its
/// default base URL and suggested model where none was given.
pub fn choose_from_flags(
    provider: &str,
    base_url: Option<String>,
    model: Option<String>,
    api_key: Option<String>,
) -> (r: Result<SetupChoice, SetupError>)
    ensures
        match ProviderKind::spec_parse(provider@) {
            None => r matches Err(SetupError::UnknownProvider),
            Some(kind) => r matches Ok(c) && c.kind == kind && c.base_url@ == or_default(
                opt_view(base_url),
                kind.spec_default_base_url(),
            ) && c.model@ == or_default(opt_view(model), kind.spec_suggested_model()) && opt_view(
                c.api_key,
            ) == opt_view(api_key),
        },
{
    let kind = match ProviderKind::parse(provider) {
        Some(k) => k,
        None => return Err(SetupError::UnknownProvider),
    };
    let base_url = string_or(base_url, kind.default_base_url());
    let model = string_or(model, kind.suggested_model());
    Ok(SetupChoice { kind, base_url, model, api_key })
}

/// A provider that needs an API key is refused without a non-empty one.
pub open spec fn key_missing(kind: ProviderKind, api_key: Option<Seq<char>>) -> bool {
    kind.spec_requires_api_key() && or_default(api_key, ""@).len() == 0
}

pub fn check_api_key(choice: SetupChoice) -> (r: Result<SetupChoice, SetupError>)
    ensures
        key_missing(choice.kind, opt_view(choice.api_key)) ==> (r matches Err(
            SetupError::MissingApiKey(k),
        ) && k == choice.kind),
        !key_missing(choice.kind, opt_view(choice.api_key)) ==> (r matches Ok(c) && c == choice),
{
    let empty = match &choice.api_key {
        Some(k) => k.as_str().is_empty(),
        None => true,
    };
    proof {
        reveal_strlit("");
    }
    if choice.kind.requires_api_key() && empty {
        return Err(SetupError::MissingApiKey(choice.kind));
    }
    Ok(choice)
}

/// The settings `llm setup` stores for a choice.
pub fn provider_config_of(choice: SetupChoice) -> (r: (ProviderKind, ProviderConfig))
    ensures
        r.0 == choice.kind,
        r.1@ == (choice.base_url@, choice.model@, opt_view(choice.api_key)),
{
    (choice.kind, ProviderConfig { base_url: choice.base_url, model: choice.model, api_key: choice.api_key })
}

pub open spec fn spec_setup_done_message(kind: ProviderKind) -> Seq<char> {
    "Configured "@ + kind.spec_display_name() + " as the active provider. Try: ask \"hello\""@
}

pub fn setup_done_message(kind: ProviderKind) -> (r: String)
    ensures
        r@ == spec_setup_done_message(kind),
{
    let mut out = chars_of("Configured ");
    push_str(&mut out, kind.display_name());
    push_str(&mut out, " as the active provider. Try: ask \"hello\"");
    string_from_chars(&out)
}

/// `usize::from_str`: an optional `+`, then one or more ASCII digits whose
/// value fits a `usize`.
pub open spec fn spec_parse_usize(s: Seq<char>) -> Option<nat> {
    let digits = digits_part(s);
    if digits.len() > 0 && (forall|i: int| 0 <= i < digits.len() ==> is_ascii_digit(#[trigger] digits[i]))
        && digits_value(digits) <= usize::MAX {
        Some(digits_value(digits))
    } else {
        None
    }
}

/// The text after an optional leading `+`.
pub open spec fn digits_part(s: Seq<char>) -> Seq<char> {
    if s.len() > 0 && s[0] == '+' {
        s.drop_first()
    } else {
        s
    }
}

proof fn lemma_digits_value_step(s: Seq<char>, i: int)
    requires
        0 <= i < s.len(),
    ensures
        digits_value(s.take(i + 1)) == digits_value(s.take(i)) * 10 + crate::text::digit_of(s[i]),
{
    assert(s.take(i + 1).drop_last() =~= s.take(i));
}

proof fn lemma_digits_value_monotone(s: Seq<char>, i: int)
    requires
        0 <= i <= s.len(),
    ensures
        digits_value(s.take(i)) <= digits_value(s),
    decreases s.len() - i,
{
    if i < s.len() {
        lemma_digits_value_monotone(s, i + 1);
        lemma_digits_value_step(s, i);
        assert(digits_value(s.take(i)) <= digits_value(s.take(i)) * 10) by (nonlinear_arith);
    } else {
        assert(s.take(i) =~= s);
    }
}

pub fn parse_usize(s: &Vec<char>) -> (r: Option<usize>)
    ensures
        match r {
            Some(n) => spec_parse_usize(s@) == Some(n as nat),
            None => spec_parse_usize(s@) is None,
        },
{
    let start: usize = if s.len() > 0 && s[0] == '+' {
        1
    } else {
        0
    };
    let ghost digits = s@.skip(start as int);
    assert(digits == digits_part(s@));
    assert(start == 1 ==> digits =~= s@.drop_first());
    assert(start == 0 ==> digits =~= s@);
    if start >= s.len() {
        return None;
    }
    let mut value: usize = 0;
    let mut i: usize = start;
    assert(digits.take(0) =~= Seq::<char>::empty());
    while i < s.len()
        invariant
            start <= i <= s@.len(),
            digits == s@.skip(start as int),
            digits == digits_part(s@),
            start < s@.len(),
            forall|j: int| 0 <= j < i - start ==> is_ascii_digit(#[trigger] digits[j]),
            value as nat == digits_value(digits.take(i - start)),
        decreases s@.len() - i,
    {
        let c = s[i];
        let ghost k = i - start;
        assert(digits[k] == c);
        if !('0' <= c && c <= '9') {
            assert(!is_ascii_digit(digits[k]));
            return None;
        }
        proof {
            lemma_digits_value_step(digits, k);
        }
        let d: usize = (c as u32 - '0' as u32) as usize;
        let next = match value.checked_mul(10) {
            Some(v) => v.checked_add(d),
            None => None,
        };
        match next {
            Some(v) => {
                value = v;
            },
            None => {
                proof {
                    lemma_digits_value_monotone(digits, k + 1);
                }
                return None;
            },
        }
        i = i + 1;
    }
    assert(digits.take(i - start) =~= digits);
    Some(value)
}

/// The wizard's answer to "Provider [1-5]": a menu number picks that
/// provider, and so does any answer that is not a number (the first one);
/// a larger number is then read as a provider name.
pub open spec fn spec_wizard_kind(answer: Seq<char>) -> Option<ProviderKind> {
    let choice = trim(answer);
    let idx: nat = match spec_parse_usize(choice) {
        Some(n) => n,
        None => 0,
    };
    let pos: nat = if idx >= 1 { (idx - 1) as nat } else { 0 };
    if pos < 5 {
        Some(all_kinds()[pos as int])
    } else {
        ProviderKind::spec_parse(choice)
    }
}

pub fn wizard_kind(answer: &str) -> (r: Result<ProviderKind, SetupError>)
    ensures
        match spec_wizard_kind(answer@) {
            Some(k) => r matches Ok(k2) && k2 == k,
            None => r matches Err(SetupError::InvalidChoice(c)) && c@ == trim(answer@),
        },
{
    let choice = trim_exec(&chars_of(answer));
    let idx: usize = match parse_usize(&choice) {
        Some(n) => n,
        None => 0,
    };
    let pos = idx.saturating_sub(1);
    let kinds = ProviderKind::all();
    if pos < kinds.len() {
        return Ok(kinds[pos]);
    }
    let choice_s = string_from_chars(&choice);
    match ProviderKind::parse(choice_s.as_str()) {
        Some(k) => Ok(k),
        None => Err(SetupError::InvalidChoice(choice_s)),
    }
}

pub open spec fn spec_providers_menu() -> Seq<char> {
    "Providers: "@ + join(all_kinds().map_values(|k: ProviderKind| k.spec_display_name()).map(|i: int, n: Seq<char>| decimal((i + 1) as nat) + ") "@ + n), "  "@)
}

/// Typing the number that the provider menu shows in front of a provider,
/// at the wizard's provider prompt, selects that provider.
pub proof fn law_menu_number_selects(i: int)
    requires
        0 <= i < all_kinds().len(),
    ensures
        all_kinds().map_values(|k: ProviderKind| k.spec_display_name()).map(
            |j: int, n: Seq<char>| decimal((j + 1) as nat) + ") "@ + n,
        )[i] == decimal((i + 1) as nat) + ") "@ + all_kinds()[i].spec_display_name(),
        spec_wizard_kind(decimal((i + 1) as nat)) == Some(all_kinds()[i]),
{
    let n: nat = (i + 1) as nat;
    let d = decimal(n);
    lemma_decimal_value(n);
    assert(!is_ws(d[0]));
    assert(!is_ws(d[d.len() - 1]));
    lemma_trim_start_skip(d, 0);
    assert(d.skip(0) =~= d);
    lemma_trim_end_take(d, d.len() as int);
    assert(d.take(d.len() as int) =~= d);
    assert(trim(d) == d);
    assert(digits_part(d) == d);
}

pub fn providers_menu() -> (r: String)
    ensures
        r@ == spec_providers_menu(),
{
    let kinds = ProviderKind::all();
    let ghost entries = all_kinds().map_values(|k: ProviderKind| k.spec_display_name()).map(|i: int, n: Seq<char>| decimal((i + 1) as nat) + ") "@ + n);
    let mut out = chars_of("Providers: ");
    let ghost head = out@;
    let mut body: Vec<char> = Vec::new();
    let mut i: usize = 0;
    assert(entries.take(0) =~= Seq::<Seq<char>>::empty());
    while i < kinds.len()
        invariant
            kinds@ == all_kinds(),
            entries == all_kinds().map_values(|k: ProviderKind| k.spec_display_name()).map(|i: int, n: Seq<char>| decimal((i + 1) as nat) + ") "@ + n),
            0 <= i <= kinds@.len(),
            body@ == join(entries.take(i as int), "  "@),
        decreases kinds@.len() - i,
    {
        proof {
            lemma_join_step(entries, "  "@, i as int);
        }
        if i > 0 {
            push_str(&mut body, "  ");
        } else {
            assert(body@ =~= Seq::<char>::empty());
        }
        let ghost before = body@;
        let num = decimal_exec((i + 1) as u64);
        push_all(&mut body, &num);
        push_str(&mut body, ") ");
        push_str(&mut body, kinds[i].display_name());
        assert(body@ =~= before + entries[i as int]);
        i = i + 1;
    }
    assert(entries.take(5) =~= entries);
    push_all(&mut out, &body);
    string_from_chars(&out)
}

/// The wizard's base-URL prompt, showing the default.
pub fn base_url_prompt(kind: ProviderKind) -> (r: String)
    ensures
        r@ == "Base URL ["@ + kind.spec_default_base_url() + "]: "@,
{
    let mut out = chars_of("Base URL [");
    push_str(&mut out, kind.default_base_url());
    push_str(&mut out, "]: ");
    string_from_chars(&out)
}

/// The trimmed answer, or `default` when the answer is blank.
pub open spec fn answer_or(answer: Seq<char>, default: Seq<char>) -> Seq<char> {
    if trim(answer).len() == 0 {
        default
    } else {
        trim(answer)
    }
}

fn answer_or_exec(answer: &str, default: &str) -> (r: String)
    ensures
        r@ == answer_or(answer@, default@),
{
    let t = trim_exec(&chars_of(answer));
    if t.len() == 0 {
        String::from_str(default)
    } else {
        string_from_chars(&t)
    }
}

/// The base URL from the wizard's answer.
pub fn wizard_base_url(kind: ProviderKind, answer: &str) -> (r: String)
    ensures
        r@ == answer_or(answer@, kind.spec_default_base_url()),
{
    answer_or_exec(answer, kind.default_base_url())
}

/// The wizard's model prompt, showing the suggestion when there is one.
pub open spec fn spec_model_prompt(kind: ProviderKind) -> Seq<char> {
    if kind.spec_suggested_model().len() == 0 {
        "Model: "@
    } else {
        "Model ["@ + kind.spec_suggested_model() + "]: "@
    }
}

pub fn model_prompt(kind: ProviderKind) -> (r: String)
    ensures
        r@ == spec_model_prompt(kind),
{
    let suggested = kind.suggested_model();
    if suggested.is_empty() {
        String::from_str("Model: ")
    } else {
        let mut out = chars_of("Model [");
        push_str(&mut out, suggested);
        push_str(&mut out, "]: ");
        string_from_chars(&out)
    }
}

/// The model from the wizard's answer.
pub fn wizard_model(kind: ProviderKind, answer: &str) -> (r: String)
    ensures
        r@ == answer_or(answer@, kind.spec_suggested_model()),
{
    answer_or_exec(answer, kind.suggested_model())
}

/// The wizard's API-key prompt: optional for the local servers.
pub open spec fn spec_api_key_prompt(kind: ProviderKind) -> Seq<char> {
    if kind.spec_requires_api_key() {
        "API key: "@
    } else {
        "API key (optional, press Enter to skip): "@
    }
}

pub fn api_key_prompt(kind: ProviderKind) -> (r: &'static str)
    ensures
        r@ == spec_api_key_prompt(kind),
{
    if kind.requires_api_key() {
        "API key: "
    } else {
        "API key (optional, press Enter to skip): "
    }
}

/// The API key from the wizard's (trimmed) answer: always kept when the
/// provider needs one (an empty key is refused later), dropped when blank
/// otherwise.
pub open spec fn spec_wizard_api_key(kind: ProviderKind, answer: Seq<char>) -> Option<Seq<char>> {
    if kind.spec_requires_api_key() || trim(answer).len() > 0 {
        Some(trim(answer))
    } else {
        None
    }
}

pub fn wizard_api_key(kind: ProviderKind, answer: &str) -> (r: Option<String>)
    ensures
        opt_view(r) == spec_wizard_api_key(kind, answer@),
{
    let t = trim_exec(&chars_of(answer));
    if kind.requires_api_key() || t.len() > 0 {
        Some(string_from_chars(&t))
    } else {
        None
    }
}

// ---------------------------------------------------------------------
// llm status
// ---------------------------------------------------------------------

/// What `llm status` shows. It holds whether an API key is set, never the key.
pub enum StatusReport {
    Active { provider: String, base_url: String, model: String, api_key_set: bool },
    Unavailable { error: String },
}

pub open spec fn key_is_set(api_key: Option<Seq<char>>) -> bool {
    match api_key {
        Some(k) => k.len() > 0,
        None => false,
    }
}

pub fn status_report(cfg: &Config) -> (r: StatusReport)
    ensures
        match resolve_active(cfg.active_provider@, cfg.providers@) {
            Ok((kind, settings)) => r matches StatusReport::Active {
                provider,
                base_url,
                model,
                api_key_set,
            } && provider@ == kind.spec_display_name() && base_url@ == settings.0 && model@
                == settings.1 && api_key_set == key_is_set(settings.2),
            Err(p) => r matches StatusReport::Unavailable { error } && error@ == not_configured_message(p),
        },
{
    match cfg.active_provider_config() {
        Ok((kind, c)) => {
            let api_key_set = match &c.api_key {
                Some(k) => !k.as_str().is_empty(),
                None => false,
            };
            StatusReport::Active {
                provider: String::from_str(kind.display_name()),
                base_url: c.base_url,
                model: c.model,
                api_key_set,
            }
        },
        Err(e) => StatusReport::Unavailable { error: e.message() },
    }
}

// ---------------------------------------------------------------------
// ask / plan
// ---------------------------------------------------------------------

/// The text a transcript entry contributes to the context: `$ cmd`, then its
/// output ending in a newline.
pub open spec fn entry_context(e: TranscriptEntry) -> Seq<char> {
    "$ "@ + e.cmd@ + "\n"@ + match e.output {
        Some(o) => if o@.len() > 0 && o@.last() == '\n' {
            o@
        } else {
            o@ + "\n"@
        },
        None => seq![],
    }
}

pub open spec fn entries_context(es: Seq<TranscriptEntry>) -> Seq<char>
    decreases es.len(),
{
    if es.len() == 0 {
        seq![]
    } else {
        entries_context(es.drop_last()) + entry_context(es.last())
    }
}

/// The context message for the entries, oldest first; none without entries.
pub open spec fn spec_context_text(es: Seq<TranscriptEntry>) -> Option<Seq<char>> {
    if es.len() == 0 {
        None
    } else {
        Some("Recent terminal activity in this session (most recent last):\n"@ + entries_context(es))
    }
}

pub fn context_text(entries: &Vec<TranscriptEntry>) -> (r: Option<String>)
    ensures
        match r {
            Some(t) => spec_context_text(entries@) == Some(t@),
            None => spec_context_text(entries@) is None,
        },
{
    if entries.len() == 0 {
        return None;
    }
    let mut out = chars_of("Recent terminal activity in this session (most recent last):\n");
    let ghost head = out@;
    let mut i: usize = 0;
    assert(entries@.take(0) =~= Seq::<TranscriptEntry>::empty());
    assert(out@ =~= head + entries_context(entries@.take(0)));
    while i < entries.len()
        invariant
            0 <= i <= entries@.len(),
            out@ == head + entries_context(entries@.take(i as int)),
        decreases entries@.len() - i,
    {
        let e = &entries[i];
        let ghost before = out@;
        push_str(&mut out, "$ ");
        push_str(&mut out, e.cmd.as_str());
        push_str(&mut out, "\n");
        match &e.output {
            Some(o) => {
                let oc = chars_of(o.as_str());
                push_all(&mut out, &oc);
                if !(oc.len() > 0 && oc[oc.len() - 1] == '\n') {
                    push_str(&mut out, "\n");
                }
            },
            None => {},
        }
        assert(out@ =~= before + entry_context(entries@[i as int]));
        assert(entries@.take(i + 1).drop_last() =~= entries@.take(i as int));
        i = i + 1;
    }
    assert(entries@.take(entries@.len() as int) =~= entries@);
    Some(string_from_chars(&out))
}

pub open spec fn message_views(ms: Seq<ChatMessage>) -> Seq<(Seq<char>, Seq<char>)> {
    ms.map_values(|m: ChatMessage| (m.role@, m.content@))
}

/// The messages sent for a question: the system prompt, the context (when
/// there is any) as a second system message, then the question.
pub open spec fn spec_chat_messages(
    system_prompt: Seq<char>,
    entries: Seq<TranscriptEntry>,
    prompt: Seq<char>,
) -> Seq<(Seq<char>, Seq<char>)> {
    seq![("system"@, system_prompt)] + match spec_context_text(entries) {
        Some(t) => seq![("system"@, t)],
        None => seq![],
    } + seq![("user"@, prompt)]
}

pub fn chat_messages(system_prompt: &str, entries: &Vec<TranscriptEntry>, prompt: &str) -> (r: Vec<
    ChatMessage,
>)
    ensures
        message_views(r@) == spec_chat_messages(system_prompt@, entries@, prompt@),
{
    let mut messages: Vec<ChatMessage> = Vec::new();
    messages.push(ChatMessage::system(String::from_str(system_prompt)));
    let ghost first = message_views(messages@);
    if let Some(t) = context_text(entries) {
        messages.push(ChatMessage::system(t));
    }
    let ghost mid = message_views(messages@);
    messages.push(ChatMessage::user(String::from_str(prompt)));
    assert(message_views(messages@) =~= spec_chat_messages(system_prompt@, entries@, prompt@));
    messages
}

} // verus!
