//! The per-session transcript of commands and their output: what one entry
//! holds, how long output is capped, and which entries go into a prompt.
//! Reading and writing the JSONL file happens outside the library.
use vstd::prelude::*;
use crate::config::opt_view;
use crate::text::{chars_of, decimal, decimal_exec, push_all, push_str, slice, string_from_chars};
use crate::xdg::{join_path, path_join, spec_sessions_dir, XdgEnv};

verus! {

#[derive(Debug)]
pub struct TranscriptEntry {
    pub ts: String,
    pub cmd: String,
    pub output: Option<String>,
    pub exit_code: i64,
}

/// `{sessions_dir}/{pid}.jsonl`.
pub open spec fn spec_session_file(env: XdgEnv, pid: u32) -> Seq<char> {
    path_join(spec_sessions_dir(env), decimal(pid as nat) + ".jsonl"@)
}

pub fn session_file(env: &XdgEnv, pid: u32) -> (r: String)
    ensures
        r@ == spec_session_file(*env, pid),
{
    let dir = crate::xdg::sessions_dir(env);
    let dir_chars = chars_of(dir.as_str());
    let mut name = decimal_exec(pid as u64);
    push_str(&mut name, ".jsonl");
    let mut out: Vec<char> = Vec::new();
    push_all(&mut out, &dir_chars);
    if dir_chars.len() > 0 && dir_chars[dir_chars.len() - 1] != '/' {
        out.push('/');
    }
    push_all(&mut out, &name);
    string_from_chars(&out)
}

/// `text` cut to `max_chars` characters when longer: the first and last
/// `max_chars / 2` characters, with a note of how many were cut between.
pub open spec fn spec_cap_text(text: Seq<char>, max_chars: nat) -> Seq<char> {
    let len = text.len();
    if len <= max_chars {
        text
    } else {
        let half = max_chars / 2;
        text.take(half as int) + "\n...["@ + decimal((len - 2 * half) as nat) + " chars truncated]...\n"@
            + text.skip(len - half)
    }
}

pub fn cap_text(text: &str, max_chars: usize) -> (r: String)
    ensures
        r@ == spec_cap_text(text@, max_chars as nat),
{
    let chars = chars_of(text);
    let len = chars.len();
    if len <= max_chars {
        return string_from_chars(&chars);
    }
    let half = max_chars / 2;
    let mut out = slice(&chars, 0, half);
    push_str(&mut out, "\n...[");
    let cut = len - 2 * half;
    push_all(&mut out, &decimal_exec(cut as u64));
    push_str(&mut out, " chars truncated]...\n");
    let tail = slice(&chars, len - half, len);
    push_all(&mut out, &tail);
    assert(out@ =~= spec_cap_text(text@, max_chars as nat));
    string_from_chars(&out)
}

/// Law: capping keeps short text as it is; long text keeps its first and
/// last `max_chars / 2` characters and the noted count is exactly what was
/// dropped in between.
pub proof fn law_cap_text_parts(text: Seq<char>, max_chars: nat)
    ensures
        text.len() <= max_chars ==> spec_cap_text(text, max_chars) == text,
        text.len() > max_chars ==> {
            let half = max_chars / 2;
            let out = spec_cap_text(text, max_chars);
            let cut = (text.len() - 2 * half) as nat;
            &&& out.take(half as int) == text.take(half as int)
            &&& out.skip(out.len() - half) == text.skip(text.len() - half)
            &&& half + cut + half == text.len()
        },
{
    if text.len() > max_chars {
        let half = max_chars / 2;
        let out = spec_cap_text(text, max_chars);
        let cut = (text.len() - 2 * half) as nat;
        let mid = "\n...["@ + decimal(cut) + " chars truncated]...\n"@;
        assert(out =~= text.take(half as int) + mid + text.skip(text.len() - half));
        assert(out.take(half as int) =~= text.take(half as int));
        assert(out.skip(out.len() - half) =~= text.skip(text.len() - half));
    }
}

/// The entry as it is stored: its output, if any, capped to `max_chars_per_entry`.
pub fn cap_entry_output(entry: TranscriptEntry, max_chars_per_entry: usize) -> (r: TranscriptEntry)
    ensures
        r.ts@ == entry.ts@,
        r.cmd@ == entry.cmd@,
        r.exit_code == entry.exit_code,
        opt_view(r.output) == match entry.output {
            Some(o) => Some(spec_cap_text(o@, max_chars_per_entry as nat)),
            None => None,
        },
{
    let output = match &entry.output {
        Some(o) => Some(cap_text(o.as_str(), max_chars_per_entry)),
        None => None,
    };
    TranscriptEntry { ts: entry.ts, cmd: entry.cmd, output, exit_code: entry.exit_code }
}

/// What an entry costs against the context budget: the characters of its
/// command and of its output.
pub open spec fn entry_cost(e: TranscriptEntry) -> nat {
    e.cmd@.len() + match e.output {
        Some(o) => o@.len(),
        None => 0nat,
    }
}

/// How many of the most recent entries to keep, `n` at most.
pub open spec fn recent_limit(len: nat, max_entries: Option<usize>) -> nat {
    match max_entries {
        Some(n) => if (n as nat) < len {
            n as nat
        } else {
            len
        },
        None => len,
    }
}

/// The costs of the `m` most recent entries, most recent first.
pub open spec fn recent_costs(all: Seq<TranscriptEntry>, m: nat) -> Seq<nat> {
    Seq::new(m, |i: int| entry_cost(all[all.len() - 1 - i]))
}

/// How many entries, most recent first, fit the budget: each entry is taken
/// while its cost fits what is left (the first always is), and taking stops
/// once the budget is used up.
pub open spec fn take_count(costs: Seq<nat>, budget: nat, first: bool) -> nat
    decreases costs.len(),
{
    if costs.len() == 0 {
        0
    } else if costs[0] > budget && !first {
        0
    } else {
        let left: nat = if costs[0] >= budget { 0 } else { (budget - costs[0]) as nat };
        if left == 0 {
            1
        } else {
            1 + take_count(costs.drop_first(), left, false)
        }
    }
}

/// How many of the most recent entries `read_context` keeps.
pub open spec fn selected_count(all: Seq<TranscriptEntry>, max_entries: Option<usize>, max_total_chars: nat) -> nat {
    take_count(recent_costs(all, recent_limit(all.len(), max_entries)), max_total_chars, true)
}

/// The entries given to the model: the most recent ones that fit, in
/// chronological order.
pub open spec fn spec_select_context(
    all: Seq<TranscriptEntry>,
    max_entries: Option<usize>,
    max_total_chars: nat,
) -> Seq<TranscriptEntry> {
    let k = selected_count(all, max_entries, max_total_chars);
    all.subrange(all.len() - k, all.len() as int)
}

pub proof fn lemma_take_count_bound(costs: Seq<nat>, budget: nat, first: bool)
    ensures
        take_count(costs, budget, first) <= costs.len(),
        costs.len() > 0 && first ==> take_count(costs, budget, first) >= 1,
    decreases costs.len(),
{
    if costs.len() > 0 {
        lemma_take_count_bound(costs.drop_first(), 0, false);
        let left: nat = if costs[0] >= budget { 0 } else { (budget - costs[0]) as nat };
        lemma_take_count_bound(costs.drop_first(), left, false);
    }
}

fn entry_cost_exec(e: &TranscriptEntry) -> (c: u128)
    ensures
        c == entry_cost(*e),
{
    let a = chars_of(e.cmd.as_str()).len();
    let b = match &e.output {
        Some(o) => chars_of(o.as_str()).len(),
        None => 0,
    };
    a as u128 + b as u128
}

/// Of the entries, oldest first, the most recent ones to give the model:
/// at most `max_entries` of them, within `max_total_chars` characters in all
/// (the most recent one is always kept), back in chronological order.
pub fn select_context(
    all: Vec<TranscriptEntry>,
    max_entries: Option<usize>,
    max_total_chars: usize,
) -> (r: Vec<TranscriptEntry>)
    ensures
        r@ == spec_select_context(all@, max_entries, max_total_chars as nat),
{
    let len = all.len();
    let m: usize = match max_entries {
        Some(n) => if n < len {
            n
        } else {
            len
        },
        None => len,
    };
    let ghost costs = recent_costs(all@, m as nat);
    let mut budget: usize = max_total_chars;
    let mut k: usize = 0;
    assert(costs.skip(0) =~= costs);
    while k < m
        invariant_except_break
            take_count(costs, max_total_chars as nat, true) == k + take_count(
                costs.skip(k as int),
                budget as nat,
                k == 0,
            ),
            k > 0 ==> budget > 0,
        invariant
            m <= len,
            len == all@.len(),
            m == recent_limit(len as nat, max_entries),
            costs == recent_costs(all@, m as nat),
            0 <= k <= m,
        ensures
            take_count(costs, max_total_chars as nat, true) == k,
        decreases m - k,
    {
        let e = &all[len - 1 - k];
        let cost = entry_cost_exec(e);
        let ghost rest = costs.skip(k as int);
        assert(rest[0] == cost);
        assert(rest.drop_first() =~= costs.skip(k + 1));
        if cost > budget as u128 && k > 0 {
            assert(take_count(rest, budget as nat, false) == 0);
            break;
        }
        if cost >= budget as u128 {
            assert(take_count(rest, budget as nat, k == 0) == 1);
            budget = 0;
            k = k + 1;
            break;
        }
        budget = budget - cost as usize;
        k = k + 1;
    }
    proof {
        if k == m {
            assert(costs.skip(m as int) =~= Seq::<nat>::empty());
        }
    }
    let mut all = all;
    let r = all.split_off(len - k);
    r
}

/// The sum of a sequence of costs.
pub open spec fn sum_costs(costs: Seq<nat>) -> nat
    decreases costs.len(),
{
    if costs.len() == 0 {
        0
    } else {
        costs[0] + sum_costs(costs.drop_first())
    }
}

proof fn lemma_take_count_sum(costs: Seq<nat>, budget: nat, first: bool)
    ensures
        ({
            let k = take_count(costs, budget, first);
            (!first || k > 1) ==> sum_costs(costs.take(k as int)) <= budget
        }),
    decreases costs.len(),
{
    let k = take_count(costs, budget, first);
    lemma_take_count_bound(costs, budget, first);
    if costs.len() == 0 {
        assert(costs.take(0) =~= Seq::<nat>::empty());
    } else if costs[0] > budget && !first {
        assert(costs.take(0) =~= Seq::<nat>::empty());
    } else {
        let left: nat = if costs[0] >= budget { 0 } else { (budget - costs[0]) as nat };
        if left == 0 {
            let t = costs.take(1);
            assert(t.drop_first() =~= Seq::<nat>::empty());
            assert(sum_costs(t) == costs[0] + sum_costs(t.drop_first()));
        } else {
            let rest = costs.drop_first();
            lemma_take_count_sum(rest, left, false);
            let j = take_count(rest, left, false);
            lemma_take_count_bound(rest, left, false);
            let t = costs.take(k as int);
            assert(t.drop_first() =~= rest.take(j as int));
            assert(sum_costs(t) == costs[0] + sum_costs(t.drop_first()));
        }
    }
}

/// Law: the context is the most recent entries in chronological order, no
/// more than `max_entries` of them; together they stay within the character
/// budget unless only the single most recent entry is kept; and it is never
/// empty when there is an entry to give and `max_entries` allows one.
pub proof fn law_select_context(all: Seq<TranscriptEntry>, max_entries: Option<usize>, max_total_chars: nat)
    ensures
        ({
            let k = selected_count(all, max_entries, max_total_chars);
            let m = recent_limit(all.len(), max_entries);
            &&& k <= m
            &&& spec_select_context(all, max_entries, max_total_chars) == all.subrange(
                all.len() - k,
                all.len() as int,
            )
            &&& (k > 1 ==> sum_costs(recent_costs(all, m).take(k as int)) <= max_total_chars)
            &&& (m > 0 ==> k >= 1)
        }),
{
    let m = recent_limit(all.len(), max_entries);
    lemma_take_count_bound(recent_costs(all, m), max_total_chars, true);
    lemma_take_count_sum(recent_costs(all, m), max_total_chars, true);
}

} // verus!
