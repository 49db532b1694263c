//! Output and input redirection rules.
use vstd::prelude::*;
use crate::rules::quotes::{
    find_unquoted, find_unquoted_exec, lemma_chain_state_prefix, lemma_find_unquoted_props,
    lemma_rfind_unquoted_props, outside_quotes, quote_flags, rfind_unquoted, rfind_unquoted_exec,
};
use crate::text::{
    chars_eq, chars_of, contains_char, contains_char_exec, matches_at, push_all, push_str, slice,
    starts_with, starts_with_exec, trim, trim_end, trim_end_exec, trim_exec, trim_start,
    trim_start_char, trim_start_char_exec, trim_start_exec,
};

verus! {

/// `cmd > file 2>&1` -> `cmd o+e> file`: only this "both streams to a file"
/// shape; a bare `2>&1` without a preceding `> file` is left alone, and
/// so is any `2>&1` or `> ` inside quotes.
pub open spec fn spec_rule_redirect_2_1(s: Seq<char>) -> Option<Seq<char>> {
    match find_unquoted(s, " 2>&1"@) {
        Some(idx) => {
            let before = s.take(idx);
            let after = s.skip(idx + " 2>&1"@.len());
            match rfind_unquoted(before, "> "@) {
                Some(st) => {
                    let cmd_part = before.take(st);
                    let file = trim(trim_start_char(before.skip(st), '>'));
                    if file.len() == 0 {
                        None
                    } else {
                        Some(trim_end(cmd_part) + " o+e> "@ + file + after)
                    }
                },
                None => None,
            }
        },
        None => None,
    }
}

pub fn rule_redirect_2_1(input: &Vec<char>) -> (r: Option<Vec<char>>)
    ensures
        match r {
            Some(t) => spec_rule_redirect_2_1(input@) == Some(t@),
            None => spec_rule_redirect_2_1(input@) is None,
        },
{
    let pat = chars_of(" 2>&1");
    let flags = quote_flags(input);
    let idx = match find_unquoted_exec(input, &flags, &pat) {
        Some(i) => i,
        None => return None,
    };
    proof {
        lemma_find_unquoted_props(input@, pat@);
        assert(matches_at(input@, pat@, idx as int));
    }
    let n = input.len();
    let pl = pat.len();
    let before = slice(input, 0, idx);
    let after = slice(input, idx + pl, n);
    assert(before@ =~= input@.take(idx as int));
    assert(after@ =~= input@.skip(idx + pat@.len()));
    let gt = chars_of("> ");
    let before_flags = quote_flags(&before);
    let st = match rfind_unquoted_exec(&before, &before_flags, &gt) {
        Some(st) => st,
        None => return None,
    };
    proof {
        lemma_rfind_unquoted_props(before@, gt@);
    }
    let cmd_part = slice(&before, 0, st);
    let redirect_part = slice(&before, st, before.len());
    assert(cmd_part@ =~= before@.take(st as int));
    assert(redirect_part@ =~= before@.skip(st as int));
    let stripped = trim_start_char_exec(&redirect_part, '>');
    let file = trim_exec(&stripped);
    if file.len() == 0 {
        return None;
    }
    let mut out = trim_end_exec(&cmd_part);
    push_str(&mut out, " o+e> ");
    push_all(&mut out, &file);
    push_all(&mut out, &after);
    Some(out)
}

/// The text before the last `op` outside quotes and the trimmed text after
/// it, unless that `op` is part of `>=`, `>&`, `<=`, ... or either side is
/// blank.
pub open spec fn spec_split_last_operator(s: Seq<char>, op: Seq<char>) -> Option<(Seq<char>, Seq<char>)> {
    match rfind_unquoted(s, op) {
        Some(idx) => {
            if op == ">"@ && starts_with(s.skip(idx), ">>"@) {
                None
            } else {
                let after = s.skip(idx + op.len());
                if after.len() > 0 && (after[0] == '=' || after[0] == '&') {
                    None
                } else {
                    let before = s.take(idx);
                    let file = trim(after);
                    if file.len() == 0 || trim(before).len() == 0 {
                        None
                    } else {
                        Some((before, file))
                    }
                }
            }
        },
        None => None,
    }
}

pub fn split_last_operator(input: &Vec<char>, op: &str) -> (r: Option<(Vec<char>, Vec<char>)>)
    ensures
        match r {
            Some((b, f)) => spec_split_last_operator(input@, op@) == Some((b@, f@)),
            None => spec_split_last_operator(input@, op@) is None,
        },
{
    let opv = chars_of(op);
    let flags = quote_flags(input);
    let idx = match rfind_unquoted_exec(input, &flags, &opv) {
        Some(i) => i,
        None => return None,
    };
    proof {
        lemma_rfind_unquoted_props(input@, opv@);
        assert(matches_at(input@, opv@, idx as int));
    }
    let n = input.len();
    let ol = opv.len();
    let gt = chars_of(">");
    if chars_eq(&opv, &gt) {
        let tail = slice(input, idx, n);
        assert(tail@ =~= input@.skip(idx as int));
        let gtgt = chars_of(">>");
        if starts_with_exec(&tail, &gtgt) {
            return None;
        }
    }
    let after = slice(input, idx + ol, n);
    assert(after@ =~= input@.skip(idx + opv@.len()));
    if after.len() > 0 && (after[0] == '=' || after[0] == '&') {
        return None;
    }
    let before = slice(input, 0, idx);
    assert(before@ =~= input@.take(idx as int));
    let file = trim_exec(&after);
    let before_t = trim_exec(&before);
    if file.len() == 0 || before_t.len() == 0 {
        return None;
    }
    Some((before, file))
}

/// `cmd > file`, `cmd >> file`, `cmd < file` -> `o>`, `o>>`, `open file | cmd`.
/// Never fires on a `[[ ... ]]` line, nor on any line with a pipe, where `>`
/// and `<` may be nu comparisons; a `>` or `<` inside quotes is text.
pub open spec fn spec_rule_redirects(s: Seq<char>) -> Option<Seq<char>> {
    if starts_with(trim_start(s), "[["@) || contains_char(s, '|') {
        None
    } else if let Some((cmd, file)) = spec_split_last_operator(s, ">>"@) {
        Some(trim_end(cmd) + " o>> "@ + trim(file))
    } else if let Some((cmd, file)) = spec_split_last_operator(s, ">"@) {
        Some(trim_end(cmd) + " o> "@ + trim(file))
    } else if let Some((cmd, file)) = spec_split_last_operator(s, "<"@) {
        Some("open "@ + trim(file) + " | "@ + trim_end(cmd))
    } else {
        None
    }
}

pub fn rule_redirects(input: &Vec<char>) -> (r: Option<Vec<char>>)
    ensures
        match r {
            Some(t) => spec_rule_redirects(input@) == Some(t@),
            None => spec_rule_redirects(input@) is None,
        },
{
    let ts = trim_start_exec(input);
    let open_test = chars_of("[[");
    if starts_with_exec(&ts, &open_test) || contains_char_exec(input, '|') {
        return None;
    }
    if let Some((cmd, file)) = split_last_operator(input, ">>") {
        let mut out = trim_end_exec(&cmd);
        push_str(&mut out, " o>> ");
        push_all(&mut out, &trim_exec(&file));
        return Some(out);
    }
    if let Some((cmd, file)) = split_last_operator(input, ">") {
        let mut out = trim_end_exec(&cmd);
        push_str(&mut out, " o> ");
        push_all(&mut out, &trim_exec(&file));
        return Some(out);
    }
    if let Some((cmd, file)) = split_last_operator(input, "<") {
        let mut out = chars_of("open ");
        push_all(&mut out, &trim_exec(&file));
        push_str(&mut out, " | ");
        push_all(&mut out, &trim_end_exec(&cmd));
        return Some(out);
    }
    None
}

/// Law: `rule_redirects` leaves every line that holds a pipe alone.
pub proof fn law_redirects_skip_pipelines(s: Seq<char>)
    requires
        contains_char(s, '|'),
    ensures
        spec_rule_redirects(s) is None,
{
}

/// Law: `rule_redirect_2_1` rewrites only a ` 2>&1` and a `> ` that lie
/// outside quotes; the line is cut at those two positions.
pub proof fn law_redirect_2_1_outside_quotes(s: Seq<char>)
    ensures
        spec_rule_redirect_2_1(s) is Some ==> exists|st: int, idx: int|
            {
                &&& 0 <= st
                &&& st + 2 <= idx
                &&& matches_at(s, "> "@, st)
                &&& outside_quotes(s, st)
                &&& matches_at(s, " 2>&1"@, idx)
                &&& outside_quotes(s, idx)
                &&& spec_rule_redirect_2_1(s) == Some(
                    trim_end(s.take(st)) + " o+e> "@ + trim(
                        trim_start_char(s.subrange(st, idx), '>'),
                    ) + s.skip(idx + 5),
                )
            },
{
    reveal_strlit(" 2>&1");
    reveal_strlit("> ");
    lemma_find_unquoted_props(s, " 2>&1"@);
    if let Some(idx) = find_unquoted(s, " 2>&1"@) {
        let before = s.take(idx);
        lemma_rfind_unquoted_props(before, "> "@);
        if let Some(st) = rfind_unquoted(before, "> "@) {
            lemma_chain_state_prefix(s, idx, st);
            assert(before.subrange(st, st + 2) =~= s.subrange(st, st + 2));
            assert(before.take(st) =~= s.take(st));
            assert(before.skip(st) =~= s.subrange(st, idx));
            if spec_rule_redirect_2_1(s) is Some {
                assert(0 <= st && st + 2 <= idx && matches_at(s, "> "@, st) && outside_quotes(s, st)
                    && matches_at(s, " 2>&1"@, idx) && outside_quotes(s, idx));
            }
        }
    }
}

/// Law: `rule_redirects` cuts the line only at a `>>`, `>` or `<` that lies
/// outside quotes.
pub proof fn law_redirects_outside_quotes(s: Seq<char>)
    ensures
        spec_rule_redirects(s) is Some ==> exists|op: Seq<char>, idx: int|
            {
                &&& (op == ">>"@ || op == ">"@ || op == "<"@)
                &&& matches_at(s, op, idx)
                &&& outside_quotes(s, idx)
                &&& spec_split_last_operator(s, op) == Some((s.take(idx), trim(s.skip(idx + op.len()))))
            },
{
    lemma_split_at_unquoted(s, ">>"@);
    lemma_split_at_unquoted(s, ">"@);
    lemma_split_at_unquoted(s, "<"@);
}

proof fn lemma_split_at_unquoted(s: Seq<char>, op: Seq<char>)
    ensures
        spec_split_last_operator(s, op) is Some ==> {
            let idx = rfind_unquoted(s, op)->0;
            &&& matches_at(s, op, idx)
            &&& outside_quotes(s, idx)
            &&& spec_split_last_operator(s, op) == Some((s.take(idx), trim(s.skip(idx + op.len()))))
        },
{
    lemma_rfind_unquoted_props(s, op);
}

/// Law: `rule_redirects` never fires on a `[[ ... ]]` test line: a `>` or
/// `<` there is a comparison, not a redirect.
pub proof fn law_redirects_skip_tests(s: Seq<char>)
    requires
        starts_with(trim_start(s), "[["@),
    ensures
        spec_rule_redirects(s) is None,
{
}

} // verus!
