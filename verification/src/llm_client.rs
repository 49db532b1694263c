//! What goes into a chat-completion request and what is made of its reply.
//! The HTTP exchange itself happens outside the library.
use vstd::prelude::*;
use crate::config::{opt_view, ProviderConfig, ProviderSettings};
use crate::provider::ProviderKind;
use crate::text::{
    all_ws, chars_of, decimal, decimal_exec, ends_with, ends_with_exec, is_all_ws, push_all,
    push_str, slice, string_from_chars,
};

verus! {

#[derive(Debug)]
pub struct ChatMessage {
    pub role: String,
    pub content: String,
}

impl ChatMessage {
    pub fn system(content: String) -> (r: ChatMessage)
        ensures
            r.role@ == "system"@,
            r.content@ == content@,
    {
        ChatMessage { role: String::from_str("system"), content }
    }

    pub fn user(content: String) -> (r: ChatMessage)
        ensures
            r.role@ == "user"@,
            r.content@ == content@,
    {
        ChatMessage { role: String::from_str("user"), content }
    }
}

#[derive(Debug)]
pub enum ChatError {
    NoModel,
    Http { status: u16, body: String },
    Transport(String),
    Decoding(String),
    Empty,
}

impl ChatError {
    /// The error as a message for people.
    pub open spec fn spec_message(&self) -> Seq<char> {
        match self {
            ChatError::NoModel => "no model configured; run `llm setup` to set one"@,
            ChatError::Http { status, body } => "HTTP "@ + decimal(*status as nat) + ": "@ + body@,
            ChatError::Transport(e) => "request failed: "@ + e@,
            ChatError::Decoding(e) => "failed to decode response: "@ + e@,
            ChatError::Empty => "provider returned an empty response"@,
        }
    }

    pub fn message(&self) -> (r: String)
        ensures
            r@ == self.spec_message(),
    {
        let mut out: Vec<char> = Vec::new();
        match self {
            ChatError::NoModel => push_str(&mut out, "no model configured; run `llm setup` to set one"),
            ChatError::Http { status, body } => {
                push_str(&mut out, "HTTP ");
                let d = decimal_exec(*status as u64);
                push_all(&mut out, &d);
                push_str(&mut out, ": ");
                push_str(&mut out, body.as_str());
            },
            ChatError::Transport(e) => {
                push_str(&mut out, "request failed: ");
                push_str(&mut out, e.as_str());
            },
            ChatError::Decoding(e) => {
                push_str(&mut out, "failed to decode response: ");
                push_str(&mut out, e.as_str());
            },
            ChatError::Empty => push_str(&mut out, "provider returned an empty response"),
        }
        string_from_chars(&out)
    }
}

/// `str::trim_end_matches` with a single character.
pub open spec fn trim_end_char(s: Seq<char>, c: char) -> Seq<char>
    decreases s.len(),
{
    if s.len() > 0 && s.last() == c {
        trim_end_char(s.drop_last(), c)
    } else {
        s
    }
}

/// `{base}/v1` unless `base` (without trailing slashes) already ends in `/v1`.
pub open spec fn spec_openai_root(base_url: Seq<char>) -> Seq<char> {
    let trimmed = trim_end_char(base_url, '/');
    if ends_with(trimmed, "/v1"@) {
        trimmed
    } else {
        trimmed + "/v1"@
    }
}

proof fn lemma_trim_end_char_take(s: Seq<char>, c: char, k: int)
    requires
        0 <= k <= s.len(),
        forall|j: int| k <= j < s.len() ==> #[trigger] s[j] == c,
        k == 0 || s[k - 1] != c,
    ensures
        trim_end_char(s, c) == s.take(k),
    decreases s.len() - k,
{
    if k == s.len() {
        assert(s.take(k) =~= s);
    } else {
        let t = s.drop_last();
        assert forall|j: int| k <= j < t.len() implies #[trigger] t[j] == c by {
            assert(t[j] == s[j]);
        }
        lemma_trim_end_char_take(t, c, k);
        assert(t.take(k) =~= s.take(k));
    }
}

pub fn openai_root(base_url: &str) -> (r: String)
    ensures
        r@ == spec_openai_root(base_url@),
{
    let b = chars_of(base_url);
    let mut k = b.len();
    while k > 0 && b[k - 1] == '/'
        invariant
            k <= b@.len(),
            forall|j: int| k <= j < b@.len() ==> #[trigger] b@[j] == '/',
        decreases k,
    {
        k = k - 1;
    }
    proof {
        lemma_trim_end_char_take(b@, '/', k as int);
    }
    let mut trimmed = slice(&b, 0, k);
    assert(trimmed@ =~= b@.take(k as int));
    let v1 = chars_of("/v1");
    if !ends_with_exec(&trimmed, &v1) {
        push_all(&mut trimmed, &v1);
    }
    string_from_chars(&trimmed)
}

/// Law: the root always ends in `/v1`, and taking the root of a root
/// changes nothing.
pub proof fn law_openai_root_idempotent(base_url: Seq<char>)
    ensures
        ends_with(spec_openai_root(base_url), "/v1"@),
        spec_openai_root(spec_openai_root(base_url)) == spec_openai_root(base_url),
{
    reveal_strlit("/v1");
    let r = spec_openai_root(base_url);
    let t = trim_end_char(base_url, '/');
    if !ends_with(t, "/v1"@) {
        assert((t + "/v1"@).subrange(t.len() as int, (t.len() + 3) as int) =~= "/v1"@);
    }
    assert(ends_with(r, "/v1"@));
    assert(r.subrange(r.len() - 3, r.len() as int)[2] == r[r.len() - 1]);
    assert("/v1"@[2] == '1');
    assert(r.last() == '1');
    assert(trim_end_char(r, '/') == r);
}

/// The completions endpoint for a provider's settings, or `None` when no
/// model is set (only whitespace).
pub open spec fn spec_completions_url(provider: ProviderSettings) -> Option<Seq<char>> {
    if all_ws(provider.1) {
        None
    } else {
        Some(spec_openai_root(provider.0) + "/chat/completions"@)
    }
}

/// The URL to post the chat request to; `NoModel` when no model is set.
pub fn completions_url(provider: &ProviderConfig) -> (r: Result<String, ChatError>)
    ensures
        match r {
            Ok(u) => spec_completions_url(provider@) == Some(u@),
            Err(e) => spec_completions_url(provider@) is None && e is NoModel,
        },
{
    let model = chars_of(provider.model.as_str());
    if is_all_ws(&model) {
        return Err(ChatError::NoModel);
    }
    let root = openai_root(provider.base_url.as_str());
    let mut url = chars_of(root.as_str());
    push_str(&mut url, "/chat/completions");
    Ok(string_from_chars(&url))
}

/// The headers of a chat request: JSON content, a bearer token when an API
/// key is set and not empty, and OpenRouter's attribution headers.
pub open spec fn spec_request_headers(kind: ProviderKind, api_key: Option<Seq<char>>) -> Seq<
    (Seq<char>, Seq<char>),
> {
    seq![("Content-Type"@, "application/json"@)] + (match api_key {
        Some(k) => if k.len() > 0 {
            seq![("Authorization"@, "Bearer "@ + k)]
        } else {
            seq![]
        },
        None => seq![],
    }) + (if kind == ProviderKind::OpenRouter {
        seq![
            ("HTTP-Referer"@, "https://github.com/nu-sidecar/nu-sidecar"@),
            ("X-Title"@, "nu-sidecar"@),
        ]
    } else {
        seq![]
    })
}

pub open spec fn header_views(v: Seq<(String, String)>) -> Seq<(Seq<char>, Seq<char>)> {
    v.map_values(|h: (String, String)| (h.0@, h.1@))
}

fn push_header(out: &mut Vec<(String, String)>, name: &str, value: String)
    ensures
        header_views(final(out)@) == header_views(old(out)@).push((name@, value@)),
{
    out.push((String::from_str(name), value));
    assert(header_views(out@) =~= header_views(old(out)@).push((name@, value@)));
}

pub fn request_headers(kind: ProviderKind, provider: &ProviderConfig) -> (r: Vec<(String, String)>)
    ensures
        header_views(r@) == spec_request_headers(kind, opt_view(provider.api_key)),
{
    let mut out: Vec<(String, String)> = Vec::new();
    push_header(&mut out, "Content-Type", String::from_str("application/json"));
    let ghost after_type = header_views(out@);
    match &provider.api_key {
        Some(key) => {
            if !key.as_str().is_empty() {
                let mut v = chars_of("Bearer ");
                push_str(&mut v, key.as_str());
                push_header(&mut out, "Authorization", string_from_chars(&v));
            }
        },
        None => {},
    }
    let ghost after_auth = header_views(out@);
    match kind {
        ProviderKind::OpenRouter => {
            push_header(
                &mut out,
                "HTTP-Referer",
                String::from_str("https://github.com/nu-sidecar/nu-sidecar"),
            );
            push_header(&mut out, "X-Title", String::from_str("nu-sidecar"));
        },
        _ => {},
    }
    assert(header_views(out@) =~= spec_request_headers(kind, opt_view(provider.api_key)));
    out
}

/// The answer text of a reply (none counts as empty); `Empty` when it is
/// only whitespace.
pub fn reply_content(content: Option<String>) -> (r: Result<String, ChatError>)
    ensures
        match r {
            Ok(s) => content is Some && s@ == content->0@ && !all_ws(s@),
            Err(e) => e is Empty && (content is None || all_ws(content->0@)),
        },
{
    match content {
        Some(s) => {
            let v = chars_of(s.as_str());
            if is_all_ws(&v) {
                Err(ChatError::Empty)
            } else {
                Ok(s)
            }
        },
        None => Err(ChatError::Empty),
    }
}

} // verus!
