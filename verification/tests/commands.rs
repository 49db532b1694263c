use nu_sidecar::commands::{
    api_key_prompt, base_url_prompt, bashify_output, chat_messages, check_api_key,
    choose_from_flags, context_text, model_prompt, parse_usize, providers_menu,
    setup_done_message, status_report, wizard_api_key, wizard_base_url, wizard_kind,
    wizard_model, SetupChoice, SetupError, StatusReport,
};
use nu_sidecar::config::{Config, ProviderConfig};
use nu_sidecar::provider::ProviderKind;
use nu_sidecar::rules::translate;
use nu_sidecar::transcript::TranscriptEntry;

#[test]
fn bashify_output_modes() {
    let r = translate("cmd1 || cmd2");
    assert_eq!(
        bashify_output("cmd1 || cmd2", &r, false, false),
        "cmd1; if $env.LAST_EXIT_CODE != 0 { cmd2 }"
    );
    assert_eq!(
        bashify_output("cmd1 || cmd2", &r, true, true),
        "- cmd1 || cmd2\n+ cmd1; if $env.LAST_EXIT_CODE != 0 { cmd2 }\n# bashify: rules fired: ||-chain"
    );
    let r = translate("ls");
    assert_eq!(
        bashify_output("ls", &r, false, true),
        "ls\n# bashify: no rules fired, input unchanged"
    );
}

#[test]
fn rules_fired_in_order() {
    let r = translate("export A=1 && echo $(date) > out.txt");
    assert_eq!(r.rules_fired, vec!["export", "command-substitution", "redirect", "&&-chain"]);
    assert_eq!(
        r.translated,
        "$env.A = \"1\"; if $env.LAST_EXIT_CODE == 0 { echo (date) o> out.txt }"
    );
}

#[test]
fn flags_choice_defaults_and_errors() {
    let c = choose_from_flags("openrouter", None, None, Some("k".into())).unwrap();
    assert_eq!(c.kind, ProviderKind::OpenRouter);
    assert_eq!(c.base_url, "https://openrouter.ai/api/v1");
    assert_eq!(c.model, "openai/gpt-4o-mini");
    assert_eq!(c.api_key.as_deref(), Some("k"));
    let c = choose_from_flags("ollama", Some("http://b".into()), Some("m".into()), None).unwrap();
    assert_eq!(c.base_url, "http://b");
    assert_eq!(c.model, "m");
    let e = choose_from_flags("nope", None, None, None).err().unwrap();
    assert_eq!(e.title(), "Unknown provider");
    assert_eq!(
        e.label(),
        "expected one of: ollama, lmStudio, openRouter, hermes, openClaw"
    );
}

#[test]
fn api_key_check() {
    let c = |kind, key: Option<&str>| SetupChoice {
        kind,
        base_url: "b".into(),
        model: "m".into(),
        api_key: key.map(|k| k.into()),
    };
    let e = check_api_key(c(ProviderKind::Hermes, None)).err().unwrap();
    assert!(matches!(e, SetupError::MissingApiKey(ProviderKind::Hermes)));
    assert_eq!(e.title(), "Missing API key");
    assert_eq!(e.label(), "Hermes requires an API key (--api-key, or answer the prompt)");
    assert!(check_api_key(c(ProviderKind::Hermes, Some(""))).is_err());
    assert!(check_api_key(c(ProviderKind::Hermes, Some("k"))).is_ok());
    assert!(check_api_key(c(ProviderKind::Ollama, None)).is_ok());
    assert_eq!(
        setup_done_message(ProviderKind::LmStudio),
        "Configured LM Studio as the active provider. Try: ask \"hello\""
    );
}

#[test]
fn wizard_decisions() {
    assert_eq!(wizard_kind("3\n").unwrap(), ProviderKind::OpenRouter);
    assert_eq!(wizard_kind("+5").unwrap(), ProviderKind::OpenClaw);
    assert_eq!(wizard_kind("1").unwrap(), ProviderKind::Ollama);
    assert_eq!(wizard_kind("0").unwrap(), ProviderKind::Ollama);
    // Not a number: the menu's first entry.
    assert_eq!(wizard_kind("hermes").unwrap(), ProviderKind::Ollama);
    assert_eq!(wizard_kind("").unwrap(), ProviderKind::Ollama);
    let e = wizard_kind(" 7 \n").err().unwrap();
    assert_eq!(e.title(), "Invalid provider choice");
    assert_eq!(e.label(), "7");
    assert_eq!(
        providers_menu(),
        "Providers: 1) Ollama  2) LM Studio  3) OpenRouter  4) Hermes  5) OpenClaw"
    );
    assert_eq!(base_url_prompt(ProviderKind::Hermes), "Base URL [http://127.0.0.1:8642]: ");
    assert_eq!(wizard_base_url(ProviderKind::Hermes, "\n"), "http://127.0.0.1:8642");
    assert_eq!(wizard_base_url(ProviderKind::Hermes, " http://x \n"), "http://x");
    assert_eq!(model_prompt(ProviderKind::Ollama), "Model: ");
    assert_eq!(model_prompt(ProviderKind::Hermes), "Model [hermes-agent]: ");
    assert_eq!(wizard_model(ProviderKind::Hermes, ""), "hermes-agent");
    assert_eq!(api_key_prompt(ProviderKind::Hermes), "API key: ");
    assert_eq!(api_key_prompt(ProviderKind::Ollama), "API key (optional, press Enter to skip): ");
    assert_eq!(wizard_api_key(ProviderKind::Ollama, "\n"), None);
    assert_eq!(wizard_api_key(ProviderKind::Hermes, "\n").as_deref(), Some(""));
    assert_eq!(wizard_api_key(ProviderKind::Ollama, " k\n").as_deref(), Some("k"));
}

#[test]
fn parse_usize_cases() {
    let p = |s: &str| parse_usize(&s.chars().collect());
    assert_eq!(p("42"), Some(42));
    assert_eq!(p("+7"), Some(7));
    assert_eq!(p("+"), None);
    assert_eq!(p(""), None);
    assert_eq!(p("-1"), None);
    assert_eq!(p("4a"), None);
    assert_eq!(p("99999999999999999999999"), None);
    assert_eq!(p(&usize::MAX.to_string()), Some(usize::MAX));
}

#[test]
fn status_report_hides_key() {
    let mut c = Config::default();
    match status_report(&c) {
        StatusReport::Unavailable { error } => assert_eq!(
            error,
            "provider 'ollama' is not configured yet; run `llm setup --provider ollama`"
        ),
        _ => panic!("expected unavailable"),
    }
    c.set_provider(
        ProviderKind::Hermes,
        ProviderConfig { base_url: "b".into(), model: "m".into(), api_key: Some("secret".into()) },
    );
    match status_report(&c) {
        StatusReport::Active { provider, base_url, model, api_key_set } => {
            assert_eq!(provider, "Hermes");
            assert_eq!(base_url, "b");
            assert_eq!(model, "m");
            assert!(api_key_set);
        }
        _ => panic!("expected active"),
    }
}

#[test]
fn context_and_messages() {
    let entries = vec![
        TranscriptEntry { ts: "t".into(), cmd: "ls".into(), output: Some("a\nb".into()), exit_code: 0 },
        TranscriptEntry { ts: "t".into(), cmd: "pwd".into(), output: Some("/\n".into()), exit_code: 0 },
        TranscriptEntry { ts: "t".into(), cmd: "true".into(), output: None, exit_code: 0 },
    ];
    assert_eq!(
        context_text(&entries).unwrap(),
        "Recent terminal activity in this session (most recent last):\n$ ls\na\nb\n$ pwd\n/\n$ true\n"
    );
    assert_eq!(context_text(&Vec::new()), None);
    let ms = chat_messages("sys", &entries, "q");
    assert_eq!(ms.len(), 3);
    assert_eq!((ms[0].role.as_str(), ms[0].content.as_str()), ("system", "sys"));
    assert_eq!(ms[1].role, "system");
    assert_eq!((ms[2].role.as_str(), ms[2].content.as_str()), ("user", "q"));
    let ms = chat_messages("sys", &Vec::new(), "q");
    assert_eq!(ms.len(), 2);
}

#[test]
fn menu_numbers_select_their_provider() {
    let menu = providers_menu();
    for (i, kind) in ProviderKind::all().into_iter().enumerate() {
        let number = (i + 1).to_string();
        assert!(menu.contains(&format!("{}) {}", number, kind.display_name())));
        assert_eq!(wizard_kind(&number).unwrap(), kind);
    }
}
