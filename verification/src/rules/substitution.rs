//! `` `cmd` `` and `$(cmd)` command substitution.
use vstd::prelude::*;
use crate::rules::chain::chain_state;
use crate::rules::quotes::{lemma_no_quote_before, outside_quotes, quote_flags};
use crate::text::{
    first_where, lemma_first_where_is, lemma_first_where_none, lemma_first_where_props, push_all,
    slice,
};

verus! {

/// Opening minus closing parentheses in `t`.
pub open spec fn paren_balance(t: Seq<char>) -> int
    decreases t.len(),
{
    if t.len() == 0 {
        0
    } else {
        paren_balance(t.drop_last()) + if t.last() == '(' {
            1int
        } else if t.last() == ')' {
            -1int
        } else {
            0int
        }
    }
}

/// Within `t`, the text after a `$(`, the position of the `)` that closes it.
pub open spec fn closing_paren(t: Seq<char>) -> Option<int> {
    first_where(t.len() as int, |j: int| t[j] == ')' && paren_balance(t.take(j)) == 0)
}

/// The position of the first backtick in `t`.
pub open spec fn next_backtick(t: Seq<char>) -> Option<int> {
    first_where(t.len() as int, |j: int| t[j] == '`')
}

/// Position `i` of `s` starts a `$(` outside quotes.
pub open spec fn dollar_paren_at(s: Seq<char>, i: int) -> bool {
    0 <= i && i + 1 < s.len() && s[i] == '$' && s[i + 1] == '(' && outside_quotes(s, i)
}

/// Position `i` of `s` holds a backtick outside quotes.
pub open spec fn backtick_at(s: Seq<char>, i: int) -> bool {
    0 <= i < s.len() && s[i] == '`' && outside_quotes(s, i)
}

/// `s` from position `i` on, with each `$(cmd)` and closed `` `cmd` `` that
/// starts outside quotes written `(cmd)`, and whether any was. A `$(` left
/// open runs to the end of the line and is still closed; an unclosed
/// backtick and all after it are kept as they are; what lies inside quotes
/// is copied as it is.
pub open spec fn subst_from(s: Seq<char>, i: int) -> (Seq<char>, bool)
    decreases s.len() - i,
{
    if i < 0 || i >= s.len() {
        (seq![], false)
    } else if dollar_paren_at(s, i) {
        let body = s.skip(i + 2);
        proof {
            lemma_first_where_props(body.len() as int, |j: int| body[j] == ')' && paren_balance(body.take(j)) == 0);
        }
        match closing_paren(body) {
            Some(j) => {
                let r = subst_from(s, i + 3 + j);
                (seq!['('] + body.take(j) + seq![')'] + r.0, true)
            },
            None => (seq!['('] + body + seq![')'], true),
        }
    } else if backtick_at(s, i) {
        let body = s.skip(i + 1);
        proof {
            lemma_first_where_props(body.len() as int, |j: int| body[j] == '`');
        }
        match next_backtick(body) {
            Some(j) => {
                let r = subst_from(s, i + 2 + j);
                (seq!['('] + body.take(j) + seq![')'] + r.0, true)
            },
            None => (seq!['`'] + body, false),
        }
    } else {
        let r = subst_from(s, i + 1);
        (seq![s[i]] + r.0, r.1)
    }
}

/// The whole line with its command substitutions rewritten, and whether any was.
pub open spec fn cmd_subst(s: Seq<char>) -> (Seq<char>, bool) {
    subst_from(s, 0)
}

/// `` `cmd` `` or `$(cmd)` -> `(cmd)`, when the line has any.
pub open spec fn spec_rule_command_substitution(s: Seq<char>) -> Option<Seq<char>> {
    let r = cmd_subst(s);
    if r.1 {
        Some(r.0)
    } else {
        None
    }
}

/// Position of the `)` closing a `$(` whose body starts at `from`.
fn close_paren_from(s: &Vec<char>, from: usize) -> (r: Option<usize>)
    requires
        2 <= from <= s@.len(),
    ensures
        match r {
            Some(j) => from <= j < s@.len() && closing_paren(s@.skip(from as int)) == Some(j - from),
            None => closing_paren(s@.skip(from as int)) is None,
        },
{
    let ghost t = s@.skip(from as int);
    let ghost p = |j: int| t[j] == ')' && paren_balance(t.take(j)) == 0;
    let n = s.len();
    let mut depth: usize = 1;
    let mut j: usize = from;
    assert(t.take(0) =~= Seq::<char>::empty());
    while j < n
        invariant
            2 <= from <= j <= n,
            n == s@.len(),
            t == s@.skip(from as int),
            p == (|j: int| t[j] == ')' && paren_balance(t.take(j)) == 0),
            1 <= depth <= j - from + 1,
            depth == 1 + paren_balance(t.take(j - from)),
            forall|k: int| 0 <= k < j - from ==> !#[trigger] p(k),
        decreases n - j,
    {
        let c = s[j];
        let ghost k = j - from;
        assert(t[k] == c);
        assert(t.take(k + 1).drop_last() =~= t.take(k));
        if c == '(' {
            depth = depth + 1;
        } else if c == ')' {
            if depth == 1 {
                proof {
                    lemma_first_where_is(t.len() as int, p, k);
                }
                return Some(j);
            }
            depth = depth - 1;
        }
        j = j + 1;
    }
    proof {
        lemma_first_where_none(t.len() as int, p);
    }
    None
}

/// Position of the first backtick at or after `from`.
fn backtick_from(s: &Vec<char>, from: usize) -> (r: Option<usize>)
    requires
        from <= s@.len(),
    ensures
        match r {
            Some(j) => from <= j < s@.len() && next_backtick(s@.skip(from as int)) == Some(j - from),
            None => next_backtick(s@.skip(from as int)) is None,
        },
{
    let ghost t = s@.skip(from as int);
    let ghost p = |j: int| t[j] == '`';
    let n = s.len();
    let mut j: usize = from;
    while j < n
        invariant
            from <= j <= n,
            n == s@.len(),
            t == s@.skip(from as int),
            p == (|j: int| t[j] == '`'),
            forall|k: int| 0 <= k < j - from ==> !#[trigger] p(k),
        decreases n - j,
    {
        assert(t[j - from] == s@[j as int]);
        if s[j] == '`' {
            proof {
                lemma_first_where_is(t.len() as int, p, j - from);
            }
            return Some(j);
        }
        j = j + 1;
    }
    proof {
        lemma_first_where_none(t.len() as int, p);
    }
    None
}

pub fn rule_command_substitution(input: &Vec<char>) -> (r: Option<Vec<char>>)
    ensures
        match r {
            Some(t) => spec_rule_command_substitution(input@) == Some(t@),
            None => spec_rule_command_substitution(input@) is None,
        },
{
    let ghost s = input@;
    let n = input.len();
    let flags = quote_flags(input);
    let mut out: Vec<char> = Vec::new();
    let mut changed = false;
    let mut i: usize = 0;
    while i < n
        invariant
            n == s.len(),
            s == input@,
            flags@.len() == n + 1,
            forall|k: int| 0 <= k <= n ==> #[trigger] flags@[k] == outside_quotes(s, k),
            0 <= i <= n,
            cmd_subst(s) == (out@ + subst_from(s, i as int).0, changed || subst_from(s, i as int).1),
        decreases n - i,
    {
        let c = input[i];
        let ghost before = out@;
        if flags[i] && c == '$' && i + 1 < n && input[i + 1] == '(' {
            assert(dollar_paren_at(s, i as int));
            match close_paren_from(input, i + 2) {
                Some(j) => {
                    let inner = slice(input, i + 2, j);
                    out.push('(');
                    push_all(&mut out, &inner);
                    out.push(')');
                    assert(inner@ =~= s.skip(i + 2).take(j - (i + 2)));
                    assert(out@ =~= before + (seq!['('] + inner@ + seq![')']));
                    changed = true;
                    i = j + 1;
                },
                None => {
                    let inner = slice(input, i + 2, n);
                    out.push('(');
                    push_all(&mut out, &inner);
                    out.push(')');
                    assert(inner@ =~= s.skip(i + 2));
                    assert(out@ =~= before + (seq!['('] + inner@ + seq![')']));
                    assert(subst_from(s, n as int) == (Seq::<char>::empty(), false));
                    assert(out@ + Seq::<char>::empty() =~= out@);
                    changed = true;
                    i = n;
                },
            }
        } else if flags[i] && c == '`' {
            assert(!dollar_paren_at(s, i as int));
            assert(backtick_at(s, i as int));
            match backtick_from(input, i + 1) {
                Some(j) => {
                    let inner = slice(input, i + 1, j);
                    out.push('(');
                    push_all(&mut out, &inner);
                    out.push(')');
                    assert(inner@ =~= s.skip(i + 1).take(j - (i + 1)));
                    assert(out@ =~= before + (seq!['('] + inner@ + seq![')']));
                    changed = true;
                    i = j + 1;
                },
                None => {
                    let inner = slice(input, i + 1, n);
                    out.push('`');
                    push_all(&mut out, &inner);
                    assert(inner@ =~= s.skip(i + 1));
                    assert(out@ =~= before + (seq!['`'] + inner@));
                    assert(subst_from(s, n as int) == (Seq::<char>::empty(), false));
                    assert(out@ + Seq::<char>::empty() =~= out@);
                    i = n;
                },
            }
        } else {
            assert(!dollar_paren_at(s, i as int));
            assert(!backtick_at(s, i as int));
            out.push(c);
            assert(out@ =~= before + seq![c]);
            i = i + 1;
        }
    }
    assert(subst_from(s, n as int) == (Seq::<char>::empty(), false));
    assert(out@ + Seq::<char>::empty() =~= out@);
    if changed {
        Some(out)
    } else {
        None
    }
}

/// Law: a character inside quotes is copied as it is: command substitution
/// rewrites only what starts outside quotes.
pub proof fn law_substitution_copies_quoted(s: Seq<char>, i: int)
    requires
        0 <= i < s.len(),
        !outside_quotes(s, i),
    ensures
        subst_from(s, i) == (seq![s[i]] + subst_from(s, i + 1).0, subst_from(s, i + 1).1),
{
}

/// Law: a line with no `$(` and no backtick outside quotes is left alone.
pub proof fn law_substitution_needs_unquoted_opener(s: Seq<char>)
    requires
        forall|i: int| !#[trigger] dollar_paren_at(s, i),
        forall|i: int| !#[trigger] backtick_at(s, i),
    ensures
        spec_rule_command_substitution(s) is None,
{
    lemma_no_opener_copies(s, 0);
}

proof fn lemma_no_opener_copies(s: Seq<char>, i: int)
    requires
        0 <= i <= s.len(),
        forall|k: int| !#[trigger] dollar_paren_at(s, k),
        forall|k: int| !#[trigger] backtick_at(s, k),
    ensures
        subst_from(s, i) == (s.skip(i), false),
    decreases s.len() - i,
{
    if i < s.len() {
        assert(!dollar_paren_at(s, i) && !backtick_at(s, i));
        lemma_no_opener_copies(s, i + 1);
        assert(seq![s[i]] + s.skip(i + 1) =~= s.skip(i));
    } else {
        assert(s.skip(i) =~= Seq::<char>::empty());
    }
}

/// A text without parentheses is balanced.
proof fn lemma_paren_balance_none(t: Seq<char>)
    requires
        forall|k: int| 0 <= k < t.len() ==> #[trigger] t[k] != '(' && t[k] != ')',
    ensures
        paren_balance(t) == 0,
    decreases t.len(),
{
    if t.len() > 0 {
        lemma_paren_balance_none(t.drop_last());
    }
}

/// Behind a prefix without quote characters, positions are inside or
/// outside quotes just as in the text alone.
proof fn lemma_quotes_shift(p: Seq<char>, y: Seq<char>, i: int)
    requires
        forall|k: int| 0 <= k < p.len() ==> #[trigger] p[k] != '\'' && p[k] != '"',
        0 <= i <= y.len(),
    ensures
        chain_state(p + y, p.len() + i).1 == chain_state(y, i).1,
        chain_state(p + y, p.len() + i).2 == chain_state(y, i).2,
    decreases i,
{
    let s = p + y;
    if i == 0 {
        assert forall|k: int| 0 <= k < p.len() implies #[trigger] s[k] != '\'' && s[k] != '"' by {
            assert(s[k] == p[k]);
        }
        lemma_no_quote_before(s, p.len() as int);
    } else {
        lemma_quotes_shift(p, y, i - 1);
        assert(s[p.len() + i - 1] == y[i - 1]);
    }
}

/// Behind a prefix without quote characters, the rewrite of the rest is the
/// rewrite of the rest alone.
proof fn lemma_subst_shift(p: Seq<char>, y: Seq<char>, i: int)
    requires
        forall|k: int| 0 <= k < p.len() ==> #[trigger] p[k] != '\'' && p[k] != '"',
        0 <= i <= y.len(),
    ensures
        subst_from(p + y, p.len() + i) == subst_from(y, i),
    decreases y.len() - i,
{
    let s = p + y;
    let k = p.len() + i;
    if i < y.len() {
        lemma_quotes_shift(p, y, i);
        assert(s[k] == y[i]);
        if i + 1 < y.len() {
            assert(s[k + 1] == y[i + 1]);
        }
        assert(dollar_paren_at(s, k) == dollar_paren_at(y, i));
        assert(backtick_at(s, k) == backtick_at(y, i));
        if dollar_paren_at(y, i) {
            let body = y.skip(i + 2);
            assert(s.skip(k + 2) =~= body);
            lemma_first_where_props(body.len() as int, |j: int| body[j] == ')' && paren_balance(body.take(j)) == 0);
            if let Some(j) = closing_paren(body) {
                lemma_subst_shift(p, y, i + 3 + j);
            }
        } else if backtick_at(y, i) {
            let body = y.skip(i + 1);
            assert(s.skip(k + 1) =~= body);
            lemma_first_where_props(body.len() as int, |j: int| body[j] == '`');
            if let Some(j) = next_backtick(body) {
                lemma_subst_shift(p, y, i + 2 + j);
            }
        } else {
            lemma_subst_shift(p, y, i + 1);
        }
    }
}

/// Law: every `$(cmd)` of a line is rewritten, not only the first: a
/// substitution in front of the rest of a line becomes `(cmd)`, and the
/// rest is rewritten as it would be on its own.
pub proof fn law_substitution_rewrites_rest(c: Seq<char>, y: Seq<char>)
    requires
        forall|k: int|
            0 <= k < c.len() ==> #[trigger] c[k] != '(' && c[k] != ')' && c[k] != '\'' && c[k] != '"',
    ensures
        cmd_subst(seq!['$', '('] + c + seq![')'] + y) == (seq!['('] + c + seq![')'] + cmd_subst(y).0, true),
{
    let p = seq!['$', '('] + c + seq![')'];
    let s = p + y;
    assert(s =~= seq!['$', '('] + c + seq![')'] + y);
    assert(s[0] == '$' && s[1] == '(');
    assert(outside_quotes(s, 0));
    assert(dollar_paren_at(s, 0));
    let body = s.skip(2);
    assert(body =~= c + seq![')'] + y);
    let pr = |j: int| body[j] == ')' && paren_balance(body.take(j)) == 0;
    assert forall|j: int| 0 <= j < c.len() implies !#[trigger] pr(j) by {
        assert(body[j] == c[j]);
    }
    assert(body.take(c.len() as int) =~= c);
    lemma_paren_balance_none(c);
    assert(body[c.len() as int] == ')');
    assert(pr(c.len() as int));
    lemma_first_where_is(body.len() as int, pr, c.len() as int);
    assert(closing_paren(body) == Some(c.len() as int));
    assert forall|k: int| 0 <= k < p.len() implies #[trigger] p[k] != '\'' && p[k] != '"' by {
        if 2 <= k < p.len() - 1 {
            assert(p[k] == c[k - 2]);
        }
    }
    lemma_subst_shift(p, y, 0);
    assert(p.len() + 0 == 3 + c.len());
}

} // verus!
