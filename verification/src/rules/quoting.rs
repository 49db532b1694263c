//! Identifiers, quotes and nu string literals.
use vstd::prelude::*;
use crate::text::{
    chars_eq, copy_chars, first_where, ident_char, ident_start, is_ident_char, is_ident_start,
    lemma_first_where_is, lemma_first_where_none, lemma_first_where_props, push_all, push_str, seqs_of,
    slice, trim, trim_exec,
};

verus! {

/// A bash variable name: an ASCII letter or `_`, then letters, digits or `_`.
pub open spec fn spec_is_ident(s: Seq<char>) -> bool {
    &&& s.len() > 0
    &&& ident_start(s[0])
    &&& forall|i: int| 1 <= i < s.len() ==> ident_char(#[trigger] s[i])
}

pub fn is_ident(s: &Vec<char>) -> (r: bool)
    ensures
        r == spec_is_ident(s@),
{
    if s.len() == 0 || !is_ident_start(s[0]) {
        return false;
    }
    let mut i: usize = 1;
    while i < s.len()
        invariant
            1 <= i <= s@.len(),
            forall|j: int| 1 <= j < i ==> ident_char(#[trigger] s@[j]),
        decreases s@.len() - i,
    {
        if !is_ident_char(s[i]) {
            return false;
        }
        i = i + 1;
    }
    true
}

/// Strips one layer of matching surrounding quotes (after trimming), if present.
pub open spec fn spec_dequote(s: Seq<char>) -> Seq<char> {
    let t = trim(s);
    if t.len() >= 2 && (t[0] == '\'' || t[0] == '"') && t[0] == t[t.len() - 1] {
        t.subrange(1, t.len() - 1)
    } else {
        t
    }
}

pub fn dequote(s: &Vec<char>) -> (r: Vec<char>)
    ensures
        r@ == spec_dequote(s@),
{
    let t = trim_exec(s);
    let n = t.len();
    if n >= 2 && (t[0] == '\'' || t[0] == '"') && t[0] == t[n - 1] {
        slice(&t, 1, n - 1)
    } else {
        t
    }
}

/// How one character is written inside a nu double-quoted string.
pub open spec fn escape_char(c: char) -> Seq<char> {
    if c == '\\' {
        seq!['\\', '\\']
    } else if c == '"' {
        seq!['\\', '"']
    } else {
        seq![c]
    }
}

/// Backslashes and double quotes escaped with a backslash; all else as is.
pub open spec fn escape(s: Seq<char>) -> Seq<char>
    decreases s.len(),
{
    if s.len() == 0 {
        seq![]
    } else {
        escape_char(s[0]) + escape(s.drop_first())
    }
}

/// A nu double-quoted string literal for a raw bash value, which may itself
/// be single- or double-quoted.
pub open spec fn nu_string_literal(raw: Seq<char>) -> Seq<char> {
    seq!['"'] + escape(spec_dequote(raw)) + seq!['"']
}

pub fn escape_exec(s: &Vec<char>) -> (r: Vec<char>)
    ensures
        r@ == escape(s@),
{
    let mut out: Vec<char> = Vec::new();
    let mut i: usize = 0;
    assert(s@.skip(0) =~= s@);
    while i < s.len()
        invariant
            0 <= i <= s@.len(),
            escape(s@) == out@ + escape(s@.skip(i as int)),
        decreases s@.len() - i,
    {
        let c = s[i];
        assert(s@.skip(i as int).drop_first() =~= s@.skip(i + 1));
        let ghost before = out@;
        if c == '\\' {
            out.push('\\');
            out.push('\\');
        } else if c == '"' {
            out.push('\\');
            out.push('"');
        } else {
            out.push(c);
        }
        assert(out@ =~= before + escape_char(c));
        i = i + 1;
    }
    assert(escape(s@.skip(i as int)) =~= Seq::<char>::empty());
    assert(out@ + Seq::<char>::empty() =~= out@);
    out
}

pub fn to_nu_string_literal(raw: &Vec<char>) -> (r: Vec<char>)
    ensures
        r@ == nu_string_literal(raw@),
{
    let inner = dequote(raw);
    let escaped = escape_exec(&inner);
    let mut out: Vec<char> = Vec::new();
    out.push('"');
    push_all(&mut out, &escaped);
    out.push('"');
    assert(out@ =~= nu_string_literal(raw@));
    out
}

/// The characters a nu double-quoted string body denotes, reading `\x` as `x`.
pub open spec fn unescape(t: Seq<char>) -> Seq<char>
    decreases t.len(),
{
    if t.len() == 0 {
        seq![]
    } else if t[0] == '\\' && t.len() >= 2 {
        seq![t[1]] + unescape(t.skip(2))
    } else {
        seq![t[0]] + unescape(t.drop_first())
    }
}

/// The value of a nu double-quoted string literal, if `lit` is one.
pub open spec fn nu_string_value(lit: Seq<char>) -> Option<Seq<char>> {
    if lit.len() >= 2 && lit[0] == '"' && lit[lit.len() - 1] == '"' {
        Some(unescape(lit.subrange(1, lit.len() - 1)))
    } else {
        None
    }
}

proof fn lemma_unescape_escape(s: Seq<char>)
    ensures
        unescape(escape(s)) == s,
    decreases s.len(),
{
    if s.len() > 0 {
        lemma_unescape_escape(s.drop_first());
        let e = escape(s);
        let rest = escape(s.drop_first());
        let c = s[0];
        if c == '\\' || c == '"' {
            assert(e.skip(2) =~= rest);
            assert(e[0] == '\\');
        } else {
            assert(e.drop_first() =~= rest);
        }
        assert(seq![c] + s.drop_first() =~= s);
    }
}

/// Law: the literal emitted for a bash value denotes exactly that value
/// with one layer of surrounding quotes removed — escaping loses nothing.
pub proof fn law_nu_literal_roundtrip(raw: Seq<char>)
    ensures
        nu_string_value(nu_string_literal(raw)) == Some(spec_dequote(raw)),
{
    let lit = nu_string_literal(raw);
    let body = escape(spec_dequote(raw));
    assert(lit.subrange(1, lit.len() - 1) =~= body);
    lemma_unescape_escape(spec_dequote(raw));
}


// ---------------------------------------------------------------------
// Carrying `export`ed names forward to later `$NAME` reads
// ---------------------------------------------------------------------

/// Length of the run of identifier characters that `t` starts with.
pub open spec fn ident_run(t: Seq<char>) -> int {
    match first_where(t.len() as int, |j: int| !ident_char(t[j])) {
        Some(j) => j,
        None => t.len() as int,
    }
}

pub proof fn lemma_ident_run(t: Seq<char>)
    ensures
        0 <= ident_run(t) <= t.len(),
        forall|j: int| 0 <= j < ident_run(t) ==> ident_char(#[trigger] t[j]),
        ident_run(t) == t.len() || !ident_char(t[ident_run(t)]),
{
    let p = |j: int| !ident_char(t[j]);
    lemma_first_where_props(t.len() as int, p);
    assert forall|j: int| 0 <= j < ident_run(t) implies ident_char(#[trigger] t[j]) by {
        assert(!p(j));
    }
}

/// The quote state after character `c`: (inside '...', inside "...").
pub open spec fn quote_step(q: (bool, bool), c: char) -> (bool, bool) {
    if c == '\'' && !q.1 {
        (!q.0, q.1)
    } else if c == '"' && !q.0 {
        (q.0, !q.1)
    } else {
        q
    }
}

/// Rewrites bare `$NAME` reads (outside single quotes) of names in `ex`
/// to `$env.NAME`; `q` is the quote state `t` starts in. A `'` inside
/// double quotes is an ordinary character.
pub open spec fn subst_refs(t: Seq<char>, ex: Seq<Seq<char>>, q: (bool, bool)) -> Seq<char>
    decreases t.len(),
{
    if t.len() == 0 {
        seq![]
    } else if t[0] == '$' && !q.0 && t.len() > 1 && ident_start(t[1]) {
        let rest = t.drop_first();
        let n = ident_run(rest);
        let name = rest.take(n);
        proof {
            lemma_ident_run(rest);
        }
        (if ex.contains(name) { "$env."@ } else { seq!['$'] }) + name + subst_refs(
            rest.skip(n),
            ex,
            q,
        )
    } else {
        seq![t[0]] + subst_refs(t.drop_first(), ex, quote_step(q, t[0]))
    }
}

/// Reads of names `export`ed earlier in the same chain become `$env.NAME`;
/// with nothing exported the text is left as it is.
pub open spec fn spec_substitute_env_refs(s: Seq<char>, ex: Seq<Seq<char>>) -> Seq<char> {
    if ex.len() == 0 {
        s
    } else {
        subst_refs(s, ex, (false, false))
    }
}

fn contains_name(exported: &Vec<Vec<char>>, name: &Vec<char>) -> (r: bool)
    ensures
        r == seqs_of(exported@).contains(name@),
{
    let mut i: usize = 0;
    while i < exported.len()
        invariant
            0 <= i <= exported@.len(),
            forall|j: int| 0 <= j < i ==> exported@[j]@ != name@,
        decreases exported@.len() - i,
    {
        if chars_eq(&exported[i], name) {
            assert(seqs_of(exported@)[i as int] == name@);
            return true;
        }
        i = i + 1;
    }
    assert forall|j: int| 0 <= j < seqs_of(exported@).len() implies seqs_of(exported@)[j] != name@ by {
        assert(seqs_of(exported@)[j] == exported@[j]@);
    }
    false
}

/// End of the identifier run that starts at `start`.
fn ident_end(input: &Vec<char>, start: usize) -> (end: usize)
    requires
        start <= input@.len(),
    ensures
        start <= end <= input@.len(),
        ident_run(input@.skip(start as int)) == end - start,
{
    let n = input.len();
    let mut end = start;
    while end < n && is_ident_char(input[end])
        invariant
            start <= end <= n,
            n == input@.len(),
            forall|j: int| start <= j < end ==> ident_char(#[trigger] input@[j]),
        decreases n - end,
    {
        end = end + 1;
    }
    let ghost rest = input@.skip(start as int);
    proof {
        let p = |j: int| !ident_char(rest[j]);
        assert forall|j: int| 0 <= j < end - start implies !#[trigger] p(j) by {
            assert(rest[j] == input@[start + j]);
        }
        if end < n {
            assert(rest[end - start] == input@[end as int]);
            lemma_first_where_is(rest.len() as int, p, end - start);
        } else {
            lemma_first_where_none(rest.len() as int, p);
        }
    }
    end
}

/// One step of `subst_refs` at a `$NAME` read.
proof fn lemma_subst_refs_dollar(s: Seq<char>, i: int, end: int, ex: Seq<Seq<char>>, q: (bool, bool))
    requires
        0 <= i,
        i + 1 < s.len(),
        s[i] == '$',
        !q.0,
        ident_start(s[i + 1]),
        i + 1 <= end <= s.len(),
        ident_run(s.skip(i + 1)) == end - (i + 1),
    ensures
        subst_refs(s.skip(i), ex, q) == (if ex.contains(s.subrange(i + 1, end)) {
            "$env."@
        } else {
            seq!['$']
        }) + s.subrange(i + 1, end) + subst_refs(s.skip(end), ex, q),
{
    let t = s.skip(i);
    let rest = t.drop_first();
    assert(rest =~= s.skip(i + 1));
    assert(t[0] == '$');
    assert(t[1] == s[i + 1]);
    let n = ident_run(rest);
    assert(n == end - (i + 1));
    assert(rest.take(n) =~= s.subrange(i + 1, end));
    assert(rest.skip(n) =~= s.skip(end));
    assert(subst_refs(t, ex, q) == (if ex.contains(rest.take(n)) {
        "$env."@
    } else {
        seq!['$']
    }) + rest.take(n) + subst_refs(rest.skip(n), ex, q));
}

/// One step of `subst_refs` at any other character.
proof fn lemma_subst_refs_plain(s: Seq<char>, i: int, ex: Seq<Seq<char>>, q: (bool, bool))
    requires
        0 <= i < s.len(),
        !(s[i] == '$' && !q.0 && i + 1 < s.len() && ident_start(s[i + 1])),
    ensures
        subst_refs(s.skip(i), ex, q) == seq![s[i]] + subst_refs(s.skip(i + 1), ex, quote_step(q, s[i])),
{
    assert(s.skip(i).drop_first() =~= s.skip(i + 1));
}

pub fn substitute_env_refs(input: &Vec<char>, exported: &Vec<Vec<char>>) -> (r: Vec<char>)
    ensures
        r@ == spec_substitute_env_refs(input@, seqs_of(exported@)),
{
    if exported.len() == 0 {
        return copy_chars(input);
    }
    let ghost ex = seqs_of(exported@);
    let ghost s = input@;
    let n = input.len();
    let mut out: Vec<char> = Vec::new();
    let mut in_single = false;
    let mut in_double = false;
    let mut i: usize = 0;
    assert(s.skip(0) =~= s);
    while i < n
        invariant
            n == s.len(),
            s == input@,
            ex == seqs_of(exported@),
            exported@.len() > 0,
            0 <= i <= n,
            subst_refs(s, ex, (false, false)) == out@ + subst_refs(
                s.skip(i as int),
                ex,
                (in_single, in_double),
            ),
        decreases n - i,
    {
        let c = input[i];
        if c == '$' && !in_single && i + 1 < n && is_ident_start(input[i + 1]) {
            let start = i + 1;
            let end = ident_end(input, start);
            proof {
                lemma_subst_refs_dollar(s, i as int, end as int, ex, (in_single, in_double));
            }
            let name = slice(input, start, end);
            let ghost before = out@;
            if contains_name(exported, &name) {
                push_str(&mut out, "$env.");
            } else {
                out.push('$');
                assert(out@ =~= before + seq!['$']);
            }
            push_all(&mut out, &name);
            i = end;
        } else {
            proof {
                lemma_subst_refs_plain(s, i as int, ex, (in_single, in_double));
            }
            let ghost before = out@;
            if c == '\'' && !in_double {
                in_single = !in_single;
            } else if c == '"' && !in_single {
                in_double = !in_double;
            }
            out.push(c);
            assert(out@ =~= before + seq![c]);
            i = i + 1;
        }
    }
    assert(subst_refs(s.skip(n as int), ex, (in_single, in_double)) =~= Seq::<char>::empty());
    assert(out@ + Seq::<char>::empty() =~= out@);
    out
}

/// The rewrite keeps a text's first character.
proof fn lemma_subst_refs_first(t: Seq<char>, ex: Seq<Seq<char>>, q: (bool, bool))
    requires
        t.len() > 0,
    ensures
        subst_refs(t, ex, q).len() > 0,
        subst_refs(t, ex, q)[0] == t[0],
{
    reveal_strlit("$env.");
    if t[0] == '$' && !q.0 && t.len() > 1 && ident_start(t[1]) {
        let rest = t.drop_first();
        let n = ident_run(rest);
        lemma_ident_run(rest);
        let lead: Seq<char> = if ex.contains(rest.take(n)) { "$env."@ } else { seq!['$'] };
        assert((lead + rest.take(n) + subst_refs(rest.skip(n), ex, q))[0] == lead[0]);
    }
}

/// Identifier characters in front of a text are copied as they are.
proof fn lemma_subst_refs_ident_prefix(name: Seq<char>, x: Seq<char>, ex: Seq<Seq<char>>, q: (bool, bool))
    requires
        forall|j: int| 0 <= j < name.len() ==> ident_char(#[trigger] name[j]),
    ensures
        subst_refs(name + x, ex, q) == name + subst_refs(x, ex, q),
    decreases name.len(),
{
    if name.len() == 0 {
        assert(name + x =~= x);
    } else {
        let t = name + x;
        assert(t[0] == name[0]);
        assert(t.drop_first() =~= name.drop_first() + x);
        lemma_subst_refs_ident_prefix(name.drop_first(), x, ex, q);
        assert(name =~= seq![name[0]] + name.drop_first());
    }
}

/// An identifier run followed by a non-identifier character (or nothing).
proof fn lemma_ident_run_concat(name: Seq<char>, y: Seq<char>)
    requires
        forall|j: int| 0 <= j < name.len() ==> ident_char(#[trigger] name[j]),
        y.len() == 0 || !ident_char(y[0]),
    ensures
        ident_run(name + y) == name.len(),
{
    let t = name + y;
    let p = |j: int| !ident_char(t[j]);
    assert forall|j: int| 0 <= j < name.len() implies !#[trigger] p(j) by {
        assert(t[j] == name[j]);
    }
    if y.len() == 0 {
        lemma_first_where_none(t.len() as int, p);
    } else {
        assert(t[name.len() as int] == y[0]);
        lemma_first_where_is(t.len() as int, p, name.len() as int);
    }
}

proof fn lemma_subst_refs_idempotent(t: Seq<char>, ex: Seq<Seq<char>>, q: (bool, bool))
    requires
        !ex.contains("env"@),
    ensures
        subst_refs(subst_refs(t, ex, q), ex, q) == subst_refs(t, ex, q),
    decreases t.len(),
{
    reveal_strlit("$env.");
    reveal_strlit("env");
    if t.len() == 0 {
    } else if t[0] == '$' && !q.0 && t.len() > 1 && ident_start(t[1]) {
        let rest = t.drop_first();
        let n = ident_run(rest);
        lemma_ident_run(rest);
        let name = rest.take(n);
        let tail = rest.skip(n);
        let st = subst_refs(tail, ex, q);
        lemma_subst_refs_idempotent(tail, ex, q);
        assert forall|j: int| 0 <= j < name.len() implies ident_char(#[trigger] name[j]) by {
            assert(name[j] == rest[j]);
        }
        assert(name[0] == t[1]);
        if tail.len() > 0 {
            lemma_subst_refs_first(tail, ex, q);
            assert(tail[0] == rest[n]);
        }
        assert(st.len() == 0 || !ident_char(st[0]));
        lemma_subst_refs_ident_prefix(name, st, ex, q);
        if ex.contains(name) {
            let o = "$env."@ + name + st;
            let env = seq!['e', 'n', 'v'];
            assert(env =~= "env"@);
            let dotted = seq!['.'] + name + st;
            assert(o =~= seq!['$'] + (env + dotted));
            let orest = o.drop_first();
            assert(orest =~= env + dotted);
            assert forall|j: int| 0 <= j < env.len() implies ident_char(#[trigger] env[j]) by {}
            lemma_ident_run_concat(env, dotted);
            assert(orest.take(3) =~= env);
            assert(orest.skip(3) =~= dotted);
            assert(dotted.drop_first() =~= name + st);
            assert(subst_refs(o, ex, q) == seq!['$'] + env + subst_refs(dotted, ex, q));
            assert(subst_refs(dotted, ex, q) == seq!['.'] + subst_refs(name + st, ex, q));
            assert(subst_refs(o, ex, q) =~= o);
        } else {
            let o = seq!['$'] + name + st;
            let orest = o.drop_first();
            assert(orest =~= name + st);
            lemma_ident_run_concat(name, st);
            assert(orest.take(n) =~= name);
            assert(orest.skip(n) =~= st);
            assert(subst_refs(o, ex, q) =~= o);
        }
    } else {
        let q2 = quote_step(q, t[0]);
        let r = subst_refs(t.drop_first(), ex, q2);
        lemma_subst_refs_idempotent(t.drop_first(), ex, q2);
        let o = seq![t[0]] + r;
        if t.len() > 1 {
            lemma_subst_refs_first(t.drop_first(), ex, q2);
        }
        assert(o.drop_first() =~= r);
    }
}

/// Law: carrying exported names forward is idempotent (a second pass finds
/// nothing left to rewrite, as long as `env` itself is not an exported
/// name), and with nothing exported the text is left as it is.
pub proof fn law_substitute_env_refs_idempotent(s: Seq<char>, ex: Seq<Seq<char>>)
    ensures
        !ex.contains("env"@) ==> spec_substitute_env_refs(spec_substitute_env_refs(s, ex), ex)
            == spec_substitute_env_refs(s, ex),
        ex.len() == 0 ==> spec_substitute_env_refs(s, ex) == s,
{
    if !ex.contains("env"@) && ex.len() > 0 {
        lemma_subst_refs_idempotent(s, ex, (false, false));
    }
}

} // verus!
