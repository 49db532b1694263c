//! Splitting a command line at its first top-level `&&` or `||`.
use vstd::prelude::*;
use crate::rules::quoting::{ident_run, lemma_ident_run, spec_substitute_env_refs, subst_refs};
use crate::text::{
    first_where, lemma_first_where_is, lemma_first_where_none, lemma_first_where_props, slice,
    trim, trim_end, trim_start,
};

verus! {

#[derive(PartialEq, Eq, Structural, Clone, Copy)]
pub enum ChainOp {
    And,
    Or,
}

/// Quote and parenthesis state: (paren depth, inside '...', inside "...").
pub open spec fn chain_step(st: (int, bool, bool), c: char) -> (int, bool, bool) {
    let (depth, in_single, in_double) = st;
    if c == '\'' && !in_double {
        (depth, !in_single, in_double)
    } else if c == '"' && !in_single {
        (depth, in_single, !in_double)
    } else if c == '(' && !in_single && !in_double {
        (depth + 1, in_single, in_double)
    } else if c == ')' && !in_single && !in_double {
        (depth - 1, in_single, in_double)
    } else {
        st
    }
}

/// The quote and parenthesis state in front of position `n` of `s`.
pub open spec fn chain_state(s: Seq<char>, n: int) -> (int, bool, bool)
    decreases n,
{
    if n <= 0 {
        (0, false, false)
    } else {
        chain_step(chain_state(s, n - 1), s[n - 1])
    }
}

/// Position `i` starts a `&&` or `||` that is outside quotes and parentheses.
pub open spec fn top_level_op_at(s: Seq<char>, i: int) -> bool {
    let st = chain_state(s, i);
    &&& 0 <= i
    &&& i + 1 < s.len()
    &&& st.0 == 0
    &&& !st.1
    &&& !st.2
    &&& ((s[i] == '&' && s[i + 1] == '&') || (s[i] == '|' && s[i + 1] == '|'))
}

/// The text before and after the first top-level `&&` or `||`, and which it was.
pub open spec fn spec_split_top_level_chain(s: Seq<char>) -> Option<(Seq<char>, ChainOp, Seq<char>)> {
    match first_where(s.len() as int, |i: int| top_level_op_at(s, i)) {
        Some(i) => Some((s.take(i), if s[i] == '&' { ChainOp::And } else { ChainOp::Or }, s.skip(i + 2))),
        None => None,
    }
}

/// Finds the first `&&` or `||` not inside quotes or parentheses and returns
/// the text before it, the operator and the text after it.
pub fn split_top_level_chain(input: &Vec<char>) -> (r: Option<(Vec<char>, ChainOp, Vec<char>)>)
    ensures
        match r {
            Some((l, op, rt)) => spec_split_top_level_chain(input@) == Some((l@, op, rt@)),
            None => spec_split_top_level_chain(input@) is None,
        },
{
    let ghost s = input@;
    let ghost pred = |i: int| top_level_op_at(s, i);
    let n = input.len();
    let mut depth: i128 = 0;
    let mut in_single = false;
    let mut in_double = false;
    let mut i: usize = 0;
    while i < n && n - i > 1
        invariant
            n == s.len(),
            s == input@,
            pred == (|i: int| top_level_op_at(s, i)),
            0 <= i <= n,
            -(i as int) <= depth <= i,
            chain_state(s, i as int) == (depth as int, in_single, in_double),
            forall|j: int| 0 <= j < i ==> !#[trigger] pred(j),
        decreases n - i,
    {
        let c = input[i];
        if c == '&' && !in_single && !in_double && depth == 0 && input[i + 1] == '&' {
            proof {
                lemma_first_where_is(s.len() as int, pred, i as int);
            }
            let l = slice(input, 0, i);
            let rt = slice(input, i + 2, n);
            assert(l@ =~= s.take(i as int));
            assert(rt@ =~= s.skip(i + 2));
            return Some((l, ChainOp::And, rt));
        }
        if c == '|' && !in_single && !in_double && depth == 0 && input[i + 1] == '|' {
            proof {
                lemma_first_where_is(s.len() as int, pred, i as int);
            }
            let l = slice(input, 0, i);
            let rt = slice(input, i + 2, n);
            assert(l@ =~= s.take(i as int));
            assert(rt@ =~= s.skip(i + 2));
            return Some((l, ChainOp::Or, rt));
        }
        assert(!pred(i as int));
        if c == '\'' && !in_double {
            in_single = !in_single;
        } else if c == '"' && !in_single {
            in_double = !in_double;
        } else if c == '(' && !in_single && !in_double {
            depth = depth + 1;
        } else if c == ')' && !in_single && !in_double {
            depth = depth - 1;
        }
        i = i + 1;
    }
    proof {
        assert forall|j: int| 0 <= j < s.len() implies !#[trigger] pred(j) by {
            if j >= i {
                assert(j + 1 >= s.len());
            }
        }
        lemma_first_where_none(s.len() as int, pred);
    }
    None
}

/// Law: a chain is only ever split at an operator that stands outside all
/// quotes and parentheses, and at the first such operator.
pub proof fn law_split_is_top_level(s: Seq<char>)
    ensures
        spec_split_top_level_chain(s) matches Some((l, op, r)) ==> {
            let i = l.len() as int;
            &&& top_level_op_at(s, i)
            &&& chain_state(s, i) == (0int, false, false)
            &&& (forall|j: int| 0 <= j < i ==> !#[trigger] top_level_op_at(s, j))
            &&& s == l + (if op == ChainOp::And { seq!['&', '&'] } else { seq!['|', '|'] }) + r
        },
{
    let p = |i: int| top_level_op_at(s, i);
    lemma_first_where_props(s.len() as int, p);
    if let Some(i) = first_where(s.len() as int, p) {
        assert(p(i));
        assert forall|j: int| 0 <= j < i implies !#[trigger] top_level_op_at(s, j) by {
            assert(!p(j));
        }
        let (l, op, r) = spec_split_top_level_chain(s).unwrap();
        assert(l =~= s.take(i));
        if op == ChainOp::And {
            assert(s =~= l + seq!['&', '&'] + r);
        } else {
            assert(s =~= l + seq!['|', '|'] + r);
        }
    }
}

// ---------------------------------------------------------------------
// Counting chain operator characters (the translator's termination measure)
// ---------------------------------------------------------------------

pub open spec fn is_op_char(c: char) -> bool {
    c == '&' || c == '|'
}

/// How many `&` and `|` characters `s` holds.
pub open spec fn count_ops(s: Seq<char>) -> nat
    decreases s.len(),
{
    if s.len() == 0 {
        0
    } else {
        (if is_op_char(s[0]) { 1nat } else { 0nat }) + count_ops(s.drop_first())
    }
}

pub proof fn lemma_count_concat(a: Seq<char>, b: Seq<char>)
    ensures
        count_ops(a + b) == count_ops(a) + count_ops(b),
    decreases a.len(),
{
    if a.len() == 0 {
        assert(a + b =~= b);
    } else {
        lemma_count_concat(a.drop_first(), b);
        assert((a + b).drop_first() =~= a.drop_first() + b);
    }
}

pub proof fn lemma_count_trim(s: Seq<char>)
    ensures
        count_ops(trim(s)) <= count_ops(s),
{
    lemma_count_trim_start(s);
    lemma_count_trim_end(trim_start(s));
}

proof fn lemma_count_trim_start(s: Seq<char>)
    ensures
        count_ops(trim_start(s)) <= count_ops(s),
    decreases s.len(),
{
    if s.len() > 0 && crate::text::is_ws(s[0]) {
        lemma_count_trim_start(s.drop_first());
    }
}

proof fn lemma_count_trim_end(s: Seq<char>)
    ensures
        count_ops(trim_end(s)) <= count_ops(s),
    decreases s.len(),
{
    if s.len() > 0 && crate::text::is_ws(s.last()) {
        lemma_count_trim_end(s.drop_last());
        lemma_count_concat(s.drop_last(), seq![s.last()]);
        assert(s.drop_last() + seq![s.last()] =~= s);
    }
}

/// Splitting removes the two operator characters, so both sides hold
/// fewer of them than the whole line.
pub proof fn lemma_count_split(s: Seq<char>)
    ensures
        spec_split_top_level_chain(s) matches Some((l, op, r)) ==> {
            &&& count_ops(l) + 2 == count_ops(s) - count_ops(r)
            &&& count_ops(l) < count_ops(s)
            &&& count_ops(r) < count_ops(s)
        },
{
    law_split_is_top_level(s);
    if let Some((l, op, r)) = spec_split_top_level_chain(s) {
        let mid = if op == ChainOp::And { seq!['&', '&'] } else { seq!['|', '|'] };
        lemma_count_concat(l, mid);
        lemma_count_concat(l + mid, r);
        assert(count_ops(mid) == 2) by {
            reveal_with_fuel(count_ops, 3);
        }
    }
}

/// `$NAME` rewriting adds and removes no `&` or `|`.
pub proof fn lemma_count_subst_refs(t: Seq<char>, ex: Seq<Seq<char>>, q: (bool, bool))
    ensures
        count_ops(subst_refs(t, ex, q)) == count_ops(t),
    decreases t.len(),
{
    if t.len() == 0 {
    } else if t[0] == '$' && !q.0 && t.len() > 1 && crate::text::ident_start(t[1]) {
        let rest = t.drop_first();
        lemma_ident_run(rest);
        let n = ident_run(rest);
        let name = rest.take(n);
        let tail = rest.skip(n);
        lemma_count_subst_refs(tail, ex, q);
        let lead: Seq<char> = if ex.contains(name) { "$env."@ } else { seq!['$'] };
        assert(count_ops(lead) == 0) by {
            reveal_strlit("$env.");
            reveal_with_fuel(count_ops, 6);
        }
        lemma_count_concat(lead, name);
        lemma_count_concat(lead + name, subst_refs(tail, ex, q));
        lemma_count_concat(seq!['$'], name);
        lemma_count_concat(seq!['$'] + name, tail);
        lemma_count_single('$');
        assert(t =~= seq!['$'] + name + tail);
    } else {
        let q2 = crate::rules::quoting::quote_step(q, t[0]);
        lemma_count_subst_refs(t.drop_first(), ex, q2);
        lemma_count_concat(seq![t[0]], subst_refs(t.drop_first(), ex, q2));
        lemma_count_single(t[0]);
        assert(subst_refs(t, ex, q) == seq![t[0]] + subst_refs(t.drop_first(), ex, q2));
    }
}

proof fn lemma_count_single(c: char)
    ensures
        count_ops(seq![c]) == if is_op_char(c) { 1nat } else { 0nat },
{
    assert(seq![c].drop_first() =~= Seq::<char>::empty());
    assert(count_ops(Seq::<char>::empty()) == 0);
    assert(seq![c][0] == c);
    assert(count_ops(seq![c]) == (if is_op_char(seq![c][0]) { 1nat } else { 0nat }) + count_ops(seq![c].drop_first()));
}

pub proof fn lemma_count_substitute(s: Seq<char>, ex: Seq<Seq<char>>)
    ensures
        count_ops(spec_substitute_env_refs(s, ex)) == count_ops(s),
{
    if ex.len() > 0 {
        lemma_count_subst_refs(s, ex, (false, false));
    }
}

} // verus!
