//! Bash -> nushell syntax translation.
//!
//! Not a shell grammar parser: a quote-aware splitter for `&&`/`||` chains
//! plus an ordered list of narrow rewrite rules for the bash idioms people
//! type interactively. Every rule fires only on an unambiguous textual match;
//! anything no rule recognises passes through unchanged.
use vstd::prelude::*;

pub mod chain;
pub mod quoting;
pub mod quotes;
pub mod redirect;
pub mod single;
pub mod substitution;

use crate::rules::chain::{
    count_ops, lemma_count_split, lemma_count_substitute, lemma_count_trim, split_top_level_chain,
    spec_split_top_level_chain, ChainOp,
};
use crate::rules::quoting::{spec_substitute_env_refs, substitute_env_refs};
use crate::rules::redirect::{
    rule_redirect_2_1, rule_redirects, spec_rule_redirect_2_1, spec_rule_redirects,
};
use crate::rules::single::{
    rule_alias, rule_dot_source, rule_env_prefix, rule_export, rule_test_expression, rule_unset,
    spec_rule_alias, spec_rule_dot_source, spec_rule_env_prefix, spec_rule_export,
    spec_rule_test_expression, spec_rule_unset,
};
use crate::rules::substitution::{rule_command_substitution, spec_rule_command_substitution};
use crate::text::{chars_of, push_all, push_str, seqs_of, string_from_chars, trim, trim_exec};

verus! {

/// The translated line and the names of the rules that fired, in order.
pub struct TranslateResult {
    pub translated: String,
    pub rules_fired: Vec<&'static str>,
}

/// The texts of a sequence of string slices.
pub open spec fn str_views(v: Seq<&str>) -> Seq<Seq<char>> {
    v.map_values(|x: &str| x@)
}

/// The rewrite for a line with no top-level `&&`/`||`: the first of the
/// whole-line rules that matches; otherwise command substitution, then
/// either the `2>&1` rule or the plain redirect rule.
/// Result: (text, rules fired, exported names).
pub open spec fn single_command(s: Seq<char>, ex: Seq<Seq<char>>) -> (
    Seq<char>,
    Seq<Seq<char>>,
    Seq<Seq<char>>,
) {
    if let Some(t) = spec_rule_test_expression(s) {
        (t, seq!["[[ ]]-test"@], ex)
    } else if let Some((t, name)) = spec_rule_export(s) {
        (t, seq!["export"@], ex.push(name))
    } else if let Some(t) = spec_rule_unset(s) {
        (t, seq!["unset"@], ex)
    } else if let Some(t) = spec_rule_alias(s) {
        (t, seq!["alias"@], ex)
    } else if let Some(t) = spec_rule_dot_source(s) {
        (t, seq!["source"@], ex)
    } else if let Some(t) = spec_rule_env_prefix(s) {
        (t, seq!["inline-env-prefix"@], ex)
    } else {
        let (s1, f1) = match spec_rule_command_substitution(s) {
            Some(x) => (x, seq!["command-substitution"@]),
            None => (s, Seq::<Seq<char>>::empty()),
        };
        if let Some(x) = spec_rule_redirect_2_1(s1) {
            (x, f1.push("2>&1"@), ex)
        } else if let Some(x) = spec_rule_redirects(s1) {
            (x, f1.push("redirect"@), ex)
        } else {
            (s1, f1, ex)
        }
    }
}

/// The text that joins the two translated sides of a chain, and the rule name.
pub open spec fn chain_glue(op: ChainOp) -> (Seq<char>, Seq<char>) {
    match op {
        ChainOp::And => ("; if $env.LAST_EXIT_CODE == 0 { "@, "&&-chain"@),
        ChainOp::Or => ("; if $env.LAST_EXIT_CODE != 0 { "@, "||-chain"@),
    }
}

/// Translation of one (trimmed) line, given the names exported earlier in
/// the same chain. A chain `l && r` becomes `l'; if $env.LAST_EXIT_CODE == 0
/// { r' }` (`!= 0` for `||`), where `l` is split at the first top-level
/// operator and names `l` exports are substituted into `r` first.
/// Result: (text, rules fired, exported names).
pub open spec fn spec_translate_line(s: Seq<char>, ex: Seq<Seq<char>>) -> (
    Seq<char>,
    Seq<Seq<char>>,
    Seq<Seq<char>>,
)
    decreases count_ops(s),
{
    if s.len() == 0 {
        (s, seq![], ex)
    } else {
        match spec_split_top_level_chain(s) {
            Some((l, op, r)) => {
                proof {
                    lemma_count_split(s);
                    lemma_count_trim(l);
                    lemma_count_trim(r);
                }
                let a = spec_translate_line(trim(l), ex);
                let rs = spec_substitute_env_refs(trim(r), a.2);
                proof {
                    lemma_count_substitute(trim(r), a.2);
                }
                let b = spec_translate_line(rs, a.2);
                let (mid, name) = chain_glue(op);
                (a.0 + mid + b.0 + " }"@, a.1 + b.1 + seq![name], b.2)
            },
            None => single_command(s, ex),
        }
    }
}

/// The translation of an input line: its trimmed text, translated with no
/// names exported yet; a line on which no rule fires comes back exactly as
/// given. Result: (text, rules fired).
pub open spec fn spec_translate(input: Seq<char>) -> (Seq<char>, Seq<Seq<char>>) {
    let r = spec_translate_line(trim(input), seq![]);
    if r.1.len() == 0 {
        (input, r.1)
    } else {
        (r.0, r.1)
    }
}

fn record_rule(fired: &mut Vec<&'static str>, name: &'static str)
    ensures
        str_views(final(fired)@) == str_views(old(fired)@).push(name@),
{
    fired.push(name);
    assert(str_views(fired@) =~= str_views(old(fired)@).push(name@));
}

fn single_command_exec(
    input: &Vec<char>,
    fired: &mut Vec<&'static str>,
    exported: &mut Vec<Vec<char>>,
) -> (out: Vec<char>)
    ensures
        ({
            let r = single_command(input@, seqs_of(old(exported)@));
            &&& out@ == r.0
            &&& str_views(final(fired)@) == str_views(old(fired)@) + r.1
            &&& seqs_of(final(exported)@) == r.2
        }),
{
    let ghost f0 = str_views(fired@);
    if let Some(s) = rule_test_expression(input) {
        record_rule(fired, "[[ ]]-test");
        return s;
    }
    if let Some((s, name)) = rule_export(input) {
        record_rule(fired, "export");
        let ghost e0 = seqs_of(exported@);
        exported.push(name);
        assert(seqs_of(exported@) =~= e0.push(name@));
        return s;
    }
    if let Some(s) = rule_unset(input) {
        record_rule(fired, "unset");
        return s;
    }
    if let Some(s) = rule_alias(input) {
        record_rule(fired, "alias");
        return s;
    }
    if let Some(s) = rule_dot_source(input) {
        record_rule(fired, "source");
        return s;
    }
    if let Some(s) = rule_env_prefix(input) {
        record_rule(fired, "inline-env-prefix");
        return s;
    }
    let mut s = push_copy(input);
    let ghost mut f1: Seq<Seq<char>> = Seq::empty();
    if let Some(new_s) = rule_command_substitution(&s) {
        s = new_s;
        record_rule(fired, "command-substitution");
        proof {
            f1 = seq!["command-substitution"@];
        }
    }
    assert(str_views(fired@) =~= f0 + f1);
    if let Some(new_s) = rule_redirect_2_1(&s) {
        s = new_s;
        record_rule(fired, "2>&1");
        assert(str_views(fired@) =~= f0 + f1.push("2>&1"@));
    } else if let Some(new_s) = rule_redirects(&s) {
        s = new_s;
        record_rule(fired, "redirect");
        assert(str_views(fired@) =~= f0 + f1.push("redirect"@));
    }
    s
}

fn push_copy(v: &Vec<char>) -> (r: Vec<char>)
    ensures
        r@ == v@,
{
    let mut r: Vec<char> = Vec::new();
    push_all(&mut r, v);
    assert(r@ =~= v@);
    r
}

/// Translates one line; names that an `export` in `left` of a chain
/// defines are carried to reads of `$NAME` in the rest of the chain.
#[verifier::rlimit(30)]
fn translate_line(
    input: &Vec<char>,
    fired: &mut Vec<&'static str>,
    exported: &mut Vec<Vec<char>>,
) -> (out: Vec<char>)
    ensures
        ({
            let r = spec_translate_line(input@, seqs_of(old(exported)@));
            &&& out@ == r.0
            &&& str_views(final(fired)@) == str_views(old(fired)@) + r.1
            &&& seqs_of(final(exported)@) == r.2
        }),
    decreases count_ops(input@),
{
    if input.len() == 0 {
        assert(str_views(fired@) =~= str_views(fired@) + Seq::<Seq<char>>::empty());
        return push_copy(input);
    }
    match split_top_level_chain(input) {
        Some((left, op, right)) => {
            proof {
                lemma_count_split(input@);
                lemma_count_trim(left@);
                lemma_count_trim(right@);
            }
            let ghost f0 = str_views(fired@);
            let left_trimmed = trim_exec(&left);
            let left_t = translate_line(&left_trimmed, fired, exported);
            let ghost f1 = str_views(fired@);
            let right_trimmed = trim_exec(&right);
            let right_substituted = substitute_env_refs(&right_trimmed, exported);
            proof {
                lemma_count_substitute(trim(right@), seqs_of(exported@));
            }
            let right_t = translate_line(&right_substituted, fired, exported);
            let ghost f2 = str_views(fired@);
            let mut out = left_t;
            match op {
                ChainOp::And => {
                    push_str(&mut out, "; if $env.LAST_EXIT_CODE == 0 { ");
                    push_all(&mut out, &right_t);
                    push_str(&mut out, " }");
                    record_rule(fired, "&&-chain");
                    assert(str_views(fired@) =~= f0 + (f1.skip(f0.len() as int) + f2.skip(
                        f1.len() as int,
                    ) + seq!["&&-chain"@]));
                },
                ChainOp::Or => {
                    push_str(&mut out, "; if $env.LAST_EXIT_CODE != 0 { ");
                    push_all(&mut out, &right_t);
                    push_str(&mut out, " }");
                    record_rule(fired, "||-chain");
                    assert(str_views(fired@) =~= f0 + (f1.skip(f0.len() as int) + f2.skip(
                        f1.len() as int,
                    ) + seq!["||-chain"@]));
                },
            }
            proof {
                assert(f1.skip(f0.len() as int) =~= spec_translate_line(
                    trim(left@),
                    seqs_of(old(exported)@),
                ).1);
            }
            out
        },
        None => single_command_exec(input, fired, exported),
    }
}

/// Translates a bash-flavoured command line into nushell syntax.
pub fn translate(input: &str) -> (res: TranslateResult)
    ensures
        res.translated@ == spec_translate(input@).0,
        str_views(res.rules_fired@) == spec_translate(input@).1,
{
    let mut fired: Vec<&'static str> = Vec::new();
    let mut exported: Vec<Vec<char>> = Vec::new();
    let chars = chars_of(input);
    let trimmed = trim_exec(&chars);
    assert(seqs_of(exported@) =~= Seq::<Seq<char>>::empty());
    assert(str_views(fired@) =~= Seq::<Seq<char>>::empty());
    let out = translate_line(&trimmed, &mut fired, &mut exported);
    assert(str_views(fired@) =~= Seq::<Seq<char>>::empty() + spec_translate_line(
        trim(input@),
        seq![],
    ).1);
    if fired.len() == 0 {
        return TranslateResult { translated: String::from_str(input), rules_fired: fired };
    }
    TranslateResult { translated: string_from_chars(&out), rules_fired: fired }
}

/// Law: a line on which no rule fires passes through byte-for-byte
/// unchanged: the translator never rewrites what it does not recognise.
pub proof fn law_unrecognized_passthrough(input: Seq<char>)
    ensures
        spec_translate(input).1.len() == 0 ==> spec_translate(input).0 == input,
{
}

} // verus!
