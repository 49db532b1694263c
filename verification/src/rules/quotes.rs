//! Which positions of a line lie outside '...' and "..." quotes, and
//! searches that only look there.
use vstd::prelude::*;
use crate::rules::chain::{chain_state, chain_step};
use crate::text::{
    first_where, last_where, lemma_first_where_is, lemma_first_where_none, lemma_last_where_is,
    lemma_last_where_none, matches_at, matches_at_exec, chars_of, slice,
};

verus! {

/// Position `i` of `s` lies outside single and double quotes.
pub open spec fn outside_quotes(s: Seq<char>, i: int) -> bool {
    !chain_state(s, i).1 && !chain_state(s, i).2
}

/// The first position outside quotes where `p` occurs in `s`.
pub open spec fn find_unquoted(s: Seq<char>, p: Seq<char>) -> Option<int> {
    first_where((s.len() + 1) as int, |i: int| matches_at(s, p, i) && outside_quotes(s, i))
}

/// The last position outside quotes where `p` occurs in `s`.
pub open spec fn rfind_unquoted(s: Seq<char>, p: Seq<char>) -> Option<int> {
    last_where((s.len() + 1) as int, |i: int| matches_at(s, p, i) && outside_quotes(s, i))
}

/// The quote state of a prefix is that of the whole line.
pub proof fn lemma_chain_state_prefix(s: Seq<char>, k: int, n: int)
    requires
        0 <= n <= k <= s.len(),
    ensures
        chain_state(s.take(k), n) == chain_state(s, n),
    decreases n,
{
    if n > 0 {
        lemma_chain_state_prefix(s, k, n - 1);
        assert(s.take(k)[n - 1] == s[n - 1]);
    }
}

/// For each position `0..=len`, whether it lies outside quotes.
pub fn quote_flags(s: &Vec<char>) -> (r: Vec<bool>)
    ensures
        r@.len() == s@.len() + 1,
        forall|i: int| 0 <= i <= s@.len() ==> #[trigger] r@[i] == outside_quotes(s@, i),
{
    let mut r: Vec<bool> = Vec::new();
    let mut in_single = false;
    let mut in_double = false;
    let ghost mut depth: int = 0;
    let mut i: usize = 0;
    r.push(true);
    while i < s.len()
        invariant
            0 <= i <= s@.len(),
            r@.len() == i + 1,
            chain_state(s@, i as int) == (depth, in_single, in_double),
            forall|j: int| 0 <= j <= i ==> #[trigger] r@[j] == outside_quotes(s@, j),
        decreases s@.len() - i,
    {
        let c = s[i];
        proof {
            depth = chain_step((depth, in_single, in_double), c).0;
        }
        if c == '\'' && !in_double {
            in_single = !in_single;
        } else if c == '"' && !in_single {
            in_double = !in_double;
        }
        i = i + 1;
        assert(chain_state(s@, i as int) == (depth, in_single, in_double));
        r.push(!in_single && !in_double);
    }
    r
}

/// `find_unquoted`, given the quote flags of `s`.
pub fn find_unquoted_exec(s: &Vec<char>, flags: &Vec<bool>, p: &Vec<char>) -> (r: Option<usize>)
    requires
        flags@.len() == s@.len() + 1,
        forall|i: int| 0 <= i <= s@.len() ==> #[trigger] flags@[i] == outside_quotes(s@, i),
    ensures
        r matches Some(i) ==> find_unquoted(s@, p@) == Some(i as int),
        r is None ==> find_unquoted(s@, p@) is None,
{
    let ghost pred = |i: int| matches_at(s@, p@, i) && outside_quotes(s@, i);
    let mut i: usize = 0;
    while i <= s.len()
        invariant
            0 <= i <= s@.len() + 1,
            flags@.len() == s@.len() + 1,
            forall|i: int| 0 <= i <= s@.len() ==> #[trigger] flags@[i] == outside_quotes(s@, i),
            pred == (|i: int| matches_at(s@, p@, i) && outside_quotes(s@, i)),
            forall|j: int| 0 <= j < i ==> !#[trigger] pred(j),
        decreases s@.len() + 1 - i,
    {
        if flags[i] && matches_at_exec(s, p, i) {
            proof {
                lemma_first_where_is((s@.len() + 1) as int, pred, i as int);
            }
            return Some(i);
        }
        if i == s.len() {
            proof {
                lemma_first_where_none((s@.len() + 1) as int, pred);
            }
            return None;
        }
        i = i + 1;
    }
    proof {
        lemma_first_where_none((s@.len() + 1) as int, pred);
    }
    None
}

/// `rfind_unquoted`, given the quote flags of `s`.
pub fn rfind_unquoted_exec(s: &Vec<char>, flags: &Vec<bool>, p: &Vec<char>) -> (r: Option<usize>)
    requires
        flags@.len() == s@.len() + 1,
        forall|i: int| 0 <= i <= s@.len() ==> #[trigger] flags@[i] == outside_quotes(s@, i),
    ensures
        r matches Some(i) ==> rfind_unquoted(s@, p@) == Some(i as int),
        r is None ==> rfind_unquoted(s@, p@) is None,
{
    let ghost pred = |i: int| matches_at(s@, p@, i) && outside_quotes(s@, i);
    let mut i: usize = s.len();
    loop
        invariant
            0 <= i <= s@.len(),
            flags@.len() == s@.len() + 1,
            forall|i: int| 0 <= i <= s@.len() ==> #[trigger] flags@[i] == outside_quotes(s@, i),
            pred == (|i: int| matches_at(s@, p@, i) && outside_quotes(s@, i)),
            forall|j: int| i < j < s@.len() + 1 ==> !#[trigger] pred(j),
        decreases i,
    {
        if flags[i] && matches_at_exec(s, p, i) {
            proof {
                lemma_last_where_is((s@.len() + 1) as int, pred, i as int);
            }
            return Some(i);
        }
        if i == 0 {
            proof {
                lemma_last_where_none((s@.len() + 1) as int, pred);
            }
            return None;
        }
        i = i - 1;
    }
}

/// When `find_unquoted` finds a position, `p` occurs there outside quotes
/// and at no earlier such position.
pub proof fn lemma_find_unquoted_props(s: Seq<char>, p: Seq<char>)
    ensures
        find_unquoted(s, p) matches Some(i) ==> {
            &&& matches_at(s, p, i)
            &&& outside_quotes(s, i)
            &&& 0 <= i <= s.len() - p.len()
        },
{
    let pr = |i: int| matches_at(s, p, i) && outside_quotes(s, i);
    crate::text::lemma_first_where_props((s.len() + 1) as int, pr);
    if let Some(i) = find_unquoted(s, p) {
        assert(pr(i));
    }
}

/// When `rfind_unquoted` finds a position, `p` occurs there outside quotes.
pub proof fn lemma_rfind_unquoted_props(s: Seq<char>, p: Seq<char>)
    ensures
        rfind_unquoted(s, p) matches Some(i) ==> {
            &&& matches_at(s, p, i)
            &&& outside_quotes(s, i)
            &&& 0 <= i <= s.len() - p.len()
        },
{
    let pr = |i: int| matches_at(s, p, i) && outside_quotes(s, i);
    crate::text::lemma_last_where_props((s.len() + 1) as int, pr);
    if let Some(i) = rfind_unquoted(s, p) {
        assert(pr(i));
    }
}

/// `s` split around the first `p` outside quotes.
pub open spec fn split_once_unquoted(s: Seq<char>, p: Seq<char>) -> Option<(Seq<char>, Seq<char>)> {
    match find_unquoted(s, p) {
        Some(i) => Some((s.take(i), s.skip(i + p.len()))),
        None => None,
    }
}

pub fn split_once_unquoted_exec(s: &Vec<char>, lit: &str) -> (r: Option<(Vec<char>, Vec<char>)>)
    ensures
        match r {
            Some((a, b)) => split_once_unquoted(s@, lit@) == Some((a@, b@)),
            None => split_once_unquoted(s@, lit@) is None,
        },
{
    let p = chars_of(lit);
    let n = s.len();
    let pl = p.len();
    let flags = quote_flags(s);
    match find_unquoted_exec(s, &flags, &p) {
        Some(i) => {
            proof {
                lemma_find_unquoted_props(s@, p@);
                assert(find_unquoted(s@, p@) == Some(i as int));
                assert(i + p@.len() <= s@.len());
            }
            let a = slice(s, 0, i);
            let b = slice(s, i + pl, n);
            assert(a@ =~= s@.take(i as int));
            assert(b@ =~= s@.skip(i + p@.len()));
            Some((a, b))
        },
        None => None,
    }
}

/// Law: `split_once_unquoted` cuts `s` only at an occurrence of `p` that
/// lies outside quotes.
pub proof fn law_split_once_unquoted_outside_quotes(s: Seq<char>, p: Seq<char>)
    ensures
        split_once_unquoted(s, p) matches Some((l, r)) ==> exists|i: int|
            {
                &&& matches_at(s, p, i)
                &&& outside_quotes(s, i)
                &&& l == s.take(i)
                &&& r == s.skip(i + p.len())
            },
{
    lemma_find_unquoted_props(s, p);
    if let Some(i) = find_unquoted(s, p) {
        assert(matches_at(s, p, i) && outside_quotes(s, i));
    }
}

/// A line with no quote character before position `i` is outside quotes there.
pub proof fn lemma_no_quote_before(s: Seq<char>, i: int)
    requires
        0 <= i <= s.len(),
        forall|k: int| 0 <= k < i ==> #[trigger] s[k] != '\'' && s[k] != '"',
    ensures
        outside_quotes(s, i),
    decreases i,
{
    if i > 0 {
        lemma_no_quote_before(s, i - 1);
    }
}

} // verus!
