use nu_sidecar::config::ProviderConfig;
use nu_sidecar::llm_client::{
    completions_url, openai_root, reply_content, request_headers, ChatError, ChatMessage,
};
use nu_sidecar::provider::ProviderKind;
use nu_sidecar::transcript::{cap_entry_output, cap_text, select_context, session_file, TranscriptEntry};
use nu_sidecar::xdg::{config_dir, config_file, sessions_dir, state_dir, XdgEnv};

fn pc(base: &str, model: &str, key: Option<&str>) -> ProviderConfig {
    ProviderConfig {
        base_url: base.to_string(),
        model: model.to_string(),
        api_key: key.map(|k| k.to_string()),
    }
}

#[test]
fn chat_message_roles() {
    let s = ChatMessage::system("be brief".to_string());
    assert_eq!(s.role, "system");
    assert_eq!(s.content, "be brief");
    let u = ChatMessage::user("hi".to_string());
    assert_eq!(u.role, "user");
    assert_eq!(u.content, "hi");
}

#[test]
fn openai_root_cases() {
    assert_eq!(openai_root("http://127.0.0.1:11434"), "http://127.0.0.1:11434/v1");
    assert_eq!(openai_root("http://127.0.0.1:11434///"), "http://127.0.0.1:11434/v1");
    assert_eq!(openai_root("https://openrouter.ai/api/v1"), "https://openrouter.ai/api/v1");
    assert_eq!(openai_root("https://openrouter.ai/api/v1/"), "https://openrouter.ai/api/v1");
    assert_eq!(openai_root(""), "/v1");
    let once = openai_root("http://x/");
    assert_eq!(openai_root(&once), once);
}

#[test]
fn completions_url_needs_model() {
    let ok = completions_url(&pc("http://h:1/", "m", None)).unwrap();
    assert_eq!(ok, "http://h:1/v1/chat/completions");
    assert!(matches!(completions_url(&pc("http://h", "  ", None)), Err(ChatError::NoModel)));
}

#[test]
fn headers_per_provider() {
    let h = request_headers(ProviderKind::OpenRouter, &pc("u", "m", Some("sk")));
    let h: Vec<(&str, &str)> = h.iter().map(|(a, b)| (a.as_str(), b.as_str())).collect();
    assert_eq!(
        h,
        vec![
            ("Content-Type", "application/json"),
            ("Authorization", "Bearer sk"),
            ("HTTP-Referer", "https://github.com/nu-sidecar/nu-sidecar"),
            ("X-Title", "nu-sidecar"),
        ]
    );
    let h = request_headers(ProviderKind::Ollama, &pc("u", "m", Some("")));
    assert_eq!(h.len(), 1);
    assert_eq!(h[0].0, "Content-Type");
}

#[test]
fn reply_content_cases() {
    assert_eq!(reply_content(Some("answer".into())).unwrap(), "answer");
    assert!(matches!(reply_content(Some(" \n".into())), Err(ChatError::Empty)));
    assert!(matches!(reply_content(None), Err(ChatError::Empty)));
}

#[test]
fn chat_error_messages() {
    assert_eq!(
        ChatError::Http { status: 404, body: "nope".into() }.message(),
        "HTTP 404: nope"
    );
    assert_eq!(ChatError::NoModel.message(), "no model configured; run `llm setup` to set one");
    assert_eq!(ChatError::Transport("t".into()).message(), "request failed: t");
    assert_eq!(ChatError::Decoding("d".into()).message(), "failed to decode response: d");
    assert_eq!(ChatError::Empty.message(), "provider returned an empty response");
}

#[test]
fn cap_text_short_and_long() {
    assert_eq!(cap_text("hello", 5), "hello");
    assert_eq!(cap_text("abcdefghij", 4), "ab\n...[6 chars truncated]...\nij");
    assert_eq!(cap_text("abcdefghij", 5), "ab\n...[6 chars truncated]...\nij");
    assert_eq!(cap_text("abc", 0), "\n...[3 chars truncated]...\n");
    assert_eq!(cap_text("ééééé", 2), "é\n...[3 chars truncated]...\né");
}

fn entry(cmd: &str, out: Option<&str>) -> TranscriptEntry {
    TranscriptEntry {
        ts: "t".into(),
        cmd: cmd.into(),
        output: out.map(|o| o.into()),
        exit_code: 0,
    }
}

#[test]
fn cap_entry_output_caps_only_output() {
    let e = cap_entry_output(entry("abcdefgh", Some("0123456789")), 4);
    assert_eq!(e.cmd, "abcdefgh");
    assert_eq!(e.output.as_deref(), Some("01\n...[6 chars truncated]...\n89"));
    let e = cap_entry_output(entry("x", None), 1);
    assert_eq!(e.output, None);
}

#[test]
fn select_context_budget_and_count() {
    let all = || vec![entry("aa", Some("1")), entry("bbb", None), entry("cccc", Some("22"))];
    let cmds = |v: Vec<TranscriptEntry>| v.into_iter().map(|e| e.cmd).collect::<Vec<_>>();
    assert_eq!(cmds(select_context(all(), None, 1000)), vec!["aa", "bbb", "cccc"]);
    assert_eq!(cmds(select_context(all(), Some(2), 1000)), vec!["bbb", "cccc"]);
    assert_eq!(cmds(select_context(all(), Some(0), 1000)), Vec::<String>::new());
    // costs, most recent first: 6, 3, 3
    assert_eq!(cmds(select_context(all(), None, 9)), vec!["bbb", "cccc"]);
    assert_eq!(cmds(select_context(all(), None, 8)), vec!["cccc"]);
    assert_eq!(cmds(select_context(all(), None, 6)), vec!["cccc"]);
    assert_eq!(cmds(select_context(all(), None, 1)), vec!["cccc"]);
    assert_eq!(cmds(select_context(all(), None, 0)), vec!["cccc"]);
    assert_eq!(cmds(select_context(Vec::new(), None, 10)), Vec::<String>::new());
    // characters, not bytes
    let multi = vec![entry("é", None), entry("ab", None)];
    assert_eq!(cmds(select_context(multi, None, 3)), vec!["é", "ab"]);
    let accents = vec![entry("é", None), entry("é", None)];
    assert_eq!(cmds(select_context(accents, None, 2)), vec!["é", "é"]);
}

fn env(cfg: Option<&str>, state: Option<&str>, home: Option<&str>) -> XdgEnv {
    XdgEnv {
        config_home: cfg.map(|s| s.into()),
        state_home: state.map(|s| s.into()),
        home: home.map(|s| s.into()),
    }
}

#[test]
fn xdg_paths() {
    let e = env(None, None, Some("/home/u"));
    assert_eq!(config_dir(&e), "/home/u/.config/nu-sidecar");
    assert_eq!(config_file(&e), "/home/u/.config/nu-sidecar/config.toml");
    assert_eq!(state_dir(&e), "/home/u/.local/state/nu-sidecar");
    assert_eq!(sessions_dir(&e), "/home/u/.local/state/nu-sidecar/sessions");
    assert_eq!(session_file(&e, 4242), "/home/u/.local/state/nu-sidecar/sessions/4242.jsonl");
    let e = env(Some("/x/"), Some("/s"), None);
    assert_eq!(config_dir(&e), "/x/nu-sidecar");
    assert_eq!(sessions_dir(&e), "/s/nu-sidecar/sessions");
    let e = env(None, None, None);
    assert_eq!(config_dir(&e), "./.config/nu-sidecar");
    assert_eq!(session_file(&e, 0), "./.local/state/nu-sidecar/sessions/0.jsonl");
}
