use nu_sidecar::rules::translate;

fn t(input: &str) -> String {
    translate(input).translated
}

#[test]
fn and_chain() {
    assert_eq!(
        t("npm install && npm start"),
        "npm install; if $env.LAST_EXIT_CODE == 0 { npm start }"
    );
}

#[test]
fn or_chain() {
    assert_eq!(t("cmd1 || cmd2"), "cmd1; if $env.LAST_EXIT_CODE != 0 { cmd2 }");
}

#[test]
fn chain_inside_quotes_is_untouched() {
    assert_eq!(t(r#"echo "a && b""#), r#"echo "a && b""#);
}

#[test]
fn export_simple() {
    assert_eq!(t("export FOO=bar"), "$env.FOO = \"bar\"");
}

#[test]
fn export_quoted_value() {
    assert_eq!(t(r#"export FOO="bar baz""#), "$env.FOO = \"bar baz\"");
}

#[test]
fn inline_env_prefix() {
    assert_eq!(t("VAR=1 some_cmd arg"), "with-env {VAR: \"1\"} { some_cmd arg }");
}

#[test]
fn unset_single() {
    assert_eq!(t("unset FOO"), "hide-env FOO");
}

#[test]
fn command_substitution_dollar_paren() {
    assert_eq!(t("echo $(date)"), "echo (date)");
}

#[test]
fn command_substitution_backtick() {
    assert_eq!(t("echo `date`"), "echo (date)");
}

#[test]
fn alias_rule() {
    assert_eq!(t("alias gs='git status'"), "alias gs = git status");
}

#[test]
fn dot_source() {
    assert_eq!(t(". ./env.sh"), "source ./env.sh");
}

#[test]
fn redirect_2_1_with_file() {
    assert_eq!(t("cmd > out.log 2>&1"), "cmd o+e> out.log");
}

#[test]
fn redirect_stdout() {
    assert_eq!(t("cmd > out.log"), "cmd o> out.log");
}

#[test]
fn redirect_append() {
    assert_eq!(t("cmd >> out.log"), "cmd o>> out.log");
}

#[test]
fn redirect_input() {
    assert_eq!(t("wc -l < file.txt"), "open file.txt | wc -l");
}

#[test]
fn test_expr_file_exists() {
    assert_eq!(t("[[ -f foo.txt ]]"), "(foo.txt | path exists)");
}

#[test]
fn test_expr_dir() {
    assert_eq!(t("[[ -d foo ]]"), "((foo | path type) == dir)");
}

#[test]
fn test_expr_eq() {
    assert_eq!(t("[[ $a == $b ]]"), "($a == $b)");
}

#[test]
fn unrecognized_passthrough() {
    let line = "for i in 1 2 3; do echo $i; done";
    assert_eq!(t(line), line);
}

#[test]
fn already_valid_nu_passthrough() {
    let line = "ls | where size > 10mb";
    assert_eq!(t(line), line);
}

#[test]
fn combined_export_and_chain_rewrites_later_read() {
    assert_eq!(
        t("export FOO=bar && echo $FOO"),
        "$env.FOO = \"bar\"; if $env.LAST_EXIT_CODE == 0 { echo $env.FOO }"
    );
}

#[test]
fn dollar_var_untouched_when_not_exported_in_this_line() {
    assert_eq!(t("echo $PATH"), "echo $PATH");
}

#[test]
fn dollar_var_inside_single_quotes_untouched() {
    assert_eq!(
        t(r#"export FOO=bar && echo '$FOO'"#),
        r#"$env.FOO = "bar"; if $env.LAST_EXIT_CODE == 0 { echo '$FOO' }"#
    );
}

#[test]
fn unrecognized_line_keeps_its_whitespace() {
    let r = translate("  ls -la  ");
    assert!(r.rules_fired.is_empty());
    assert_eq!(r.translated, "  ls -la  ");
    let r = translate("   ");
    assert!(r.rules_fired.is_empty());
    assert_eq!(r.translated, "   ");
    // A line a rule rewrites is trimmed first.
    assert_eq!(translate("  echo $(date)  ").translated, "echo (date)");
}

#[test]
fn substitution_inside_quotes_is_untouched() {
    let r = translate("echo '$(date)'");
    assert!(r.rules_fired.is_empty());
    assert_eq!(r.translated, "echo '$(date)'");
    assert_eq!(translate("echo \"`date`\"").translated, "echo \"`date`\"");
    assert_eq!(translate("echo $(date) '$(x)'").translated, "echo (date) '$(x)'");
    assert_eq!(translate("echo `a` \"`b`\"").translated, "echo (a) \"`b`\"");
}

#[test]
fn redirects_inside_quotes_are_untouched() {
    let r = translate("echo \"a > b\"");
    assert!(r.rules_fired.is_empty());
    assert_eq!(r.translated, "echo \"a > b\"");
    assert_eq!(translate("echo \"a > b\" > out.txt").translated, "echo \"a > b\" o> out.txt");
    assert_eq!(translate("echo 'x < y'").translated, "echo 'x < y'");
    let r = translate("echo \"x 2>&1\" > f");
    assert_eq!(r.rules_fired, vec!["redirect"]);
    assert_eq!(r.translated, "echo \"x 2>&1\" o> f");
    assert_eq!(translate("cmd \"> x\" 2>&1").translated, "cmd \"> x\" 2>&1");
}

#[test]
fn quoted_operators_and_values() {
    assert_eq!(translate("[[ \"a==b\" == c ]]").translated, "(\"a==b\" == c)");
    assert_eq!(translate("A=\"x y\" cmd").translated, "with-env {A: \"x y\"} { cmd }");
}

#[test]
fn exported_read_inside_double_quotes_with_apostrophe() {
    assert_eq!(
        translate("export A=1 && echo \"it's $A\"").translated,
        "$env.A = \"1\"; if $env.LAST_EXIT_CODE == 0 { echo \"it's $env.A\" }"
    );
    assert_eq!(
        translate("export A=1 && echo '$A' $A").translated,
        "$env.A = \"1\"; if $env.LAST_EXIT_CODE == 0 { echo '$A' $env.A }"
    );
}
