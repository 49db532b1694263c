//! Rules for a single (non-chained) command.
use vstd::prelude::*;
use crate::rules::quoting::{
    dequote, is_ident, nu_string_literal, spec_dequote, spec_is_ident, to_nu_string_literal,
};
use crate::rules::quotes::{
    lemma_no_quote_before, outside_quotes, quote_flags, split_once_unquoted,
    split_once_unquoted_exec,
};
use crate::text::{
    chars_of, first_where, is_whitespace, lemma_first_where_is, lemma_first_where_none,
    lemma_first_where_props, lemma_trim_start_first, is_ws, slice, contains_char, contains_char_exec, is_all_ws, join, lemma_join_step, lemma_trim_empty,
    push_all, push_str, seqs_of, split_once, split_once_char, starts_with,
    starts_with_exec, strip_prefix, strip_prefix_exec, strip_suffix, strip_suffix_exec, trim,
    trim_end, trim_end_exec, trim_exec, trim_start, trim_start_exec, words, words_exec,
    lemma_words_join, matches_at, ends_with,
};

verus! {

// ---------------------------------------------------------------------
// export / unset / alias / . (source)
// ---------------------------------------------------------------------

/// `export VAR=val` -> `$env.VAR = "val"`, with the exported name. The value
/// becomes a literal nu string: `$PATH` inside it is not expanded.
pub open spec fn spec_rule_export(s: Seq<char>) -> Option<(Seq<char>, Seq<char>)> {
    match strip_prefix(s, "export "@) {
        Some(rest) => match split_once(trim_start(rest), seq!['=']) {
            Some((name0, value)) => {
                let name = trim(name0);
                if spec_is_ident(name) {
                    Some(("$env."@ + name + " = "@ + nu_string_literal(value), name))
                } else {
                    None
                }
            },
            None => None,
        },
        None => None,
    }
}

pub fn rule_export(input: &Vec<char>) -> (r: Option<(Vec<char>, Vec<char>)>)
    ensures
        match r {
            Some((t, name)) => spec_rule_export(input@) == Some((t@, name@)),
            None => spec_rule_export(input@) is None,
        },
{
    let rest = match strip_prefix_exec(input, "export ") {
        Some(rest) => rest,
        None => return None,
    };
    let rest = trim_start_exec(&rest);
    let (name0, value) = match split_once_char(&rest, '=') {
        Some(p) => p,
        None => return None,
    };
    let name = trim_exec(&name0);
    if !is_ident(&name) {
        return None;
    }
    let mut out: Vec<char> = Vec::new();
    push_str(&mut out, "$env.");
    push_all(&mut out, &name);
    push_str(&mut out, " = ");
    let lit = to_nu_string_literal(&value);
    push_all(&mut out, &lit);
    Some((out, name))
}

/// `unset VAR [VAR2 ...]` -> `hide-env VAR; hide-env VAR2`.
pub open spec fn spec_rule_unset(s: Seq<char>) -> Option<Seq<char>> {
    match strip_prefix(s, "unset "@) {
        Some(rest) => {
            let names = words(rest);
            if names.len() == 0 || !(forall|i: int| 0 <= i < names.len() ==> spec_is_ident(#[trigger] names[i])) {
                None
            } else {
                Some(join(names.map_values(|n: Seq<char>| "hide-env "@ + n), "; "@))
            }
        },
        None => None,
    }
}

/// Law: `unset N1 ... Nk` with identifier names becomes one `hide-env`
/// statement per name, in the order given, separated by `; `.
pub proof fn law_unset_hides_each_name(names: Seq<Seq<char>>)
    requires
        names.len() > 0,
        forall|i: int| 0 <= i < names.len() ==> spec_is_ident(#[trigger] names[i]),
    ensures
        spec_rule_unset("unset "@ + join(names, seq![' '])) == Some(
            join(names.map_values(|n: Seq<char>| "hide-env "@ + n), "; "@),
        ),
{
    let rest = join(names, seq![' ']);
    let s = "unset "@ + rest;
    assert(s.subrange(0, "unset "@.len() as int) =~= "unset "@);
    assert(s.skip("unset "@.len() as int) =~= rest);
    assert forall|i: int| 0 <= i < names.len() implies #[trigger] names[i].len() > 0 by {
        assert(spec_is_ident(names[i]));
    }
    assert forall|i: int, j: int| 0 <= i < names.len() && 0 <= j < names[i].len() implies !is_ws(
        #[trigger] names[i][j],
    ) by {
        assert(spec_is_ident(names[i]));
        if j > 0 {
            assert(crate::text::ident_char(names[i][j]));
        }
    }
    lemma_words_join(names);
}

pub fn rule_unset(input: &Vec<char>) -> (r: Option<Vec<char>>)
    ensures
        match r {
            Some(t) => spec_rule_unset(input@) == Some(t@),
            None => spec_rule_unset(input@) is None,
        },
{
    let rest = match strip_prefix_exec(input, "unset ") {
        Some(rest) => rest,
        None => return None,
    };
    let names = words_exec(&rest);
    let ghost ns = words(rest@);
    assert(strip_prefix(input@, "unset "@) == Some(rest@));
    assert(ns.len() == names@.len());
    if names.len() == 0 {
        return None;
    }
    let mut k: usize = 0;
    while k < names.len()
        invariant
            seqs_of(names@) == ns,
            ns == words(rest@),
            strip_prefix(input@, "unset "@) == Some(rest@),
            0 <= k <= names@.len(),
            forall|j: int| 0 <= j < k ==> spec_is_ident(#[trigger] ns[j]),
        decreases names@.len() - k,
    {
        assert(seqs_of(names@)[k as int] == names@[k as int]@);
        if !is_ident(&names[k]) {
            assert(!spec_is_ident(ns[k as int]));
            assert(!(forall|i: int| 0 <= i < ns.len() ==> spec_is_ident(#[trigger] ns[i])));
            return None;
        }
        k = k + 1;
    }
    let ghost mapped = ns.map_values(|n: Seq<char>| "hide-env "@ + n);
    let mut out: Vec<char> = Vec::new();
    let mut i: usize = 0;
    assert(mapped.take(0) =~= Seq::<Seq<char>>::empty());
    while i < names.len()
        invariant
            seqs_of(names@) == ns,
            ns == words(rest@),
            strip_prefix(input@, "unset "@) == Some(rest@),
            names@.len() > 0,
            forall|j: int| 0 <= j < ns.len() ==> spec_is_ident(#[trigger] ns[j]),
            mapped == ns.map_values(|n: Seq<char>| "hide-env "@ + n),
            0 <= i <= names@.len(),
            out@ == join(mapped.take(i as int), "; "@),
        decreases names@.len() - i,
    {
        proof {
            lemma_join_step(mapped, "; "@, i as int);
        }
        assert(seqs_of(names@)[i as int] == names@[i as int]@);
        if i > 0 {
            push_str(&mut out, "; ");
        } else {
            assert(out@ =~= Seq::<char>::empty());
        }
        let ghost before = out@;
        push_str(&mut out, "hide-env ");
        push_all(&mut out, &names[i]);
        assert(out@ =~= before + mapped[i as int]);
        i = i + 1;
    }
    assert(mapped.take(names@.len() as int) =~= mapped);
    Some(out)
}

/// `alias x='y'` / `alias x=y` -> `alias x = y`.
pub open spec fn spec_rule_alias(s: Seq<char>) -> Option<Seq<char>> {
    match strip_prefix(s, "alias "@) {
        Some(rest) => match split_once(trim_start(rest), seq!['=']) {
            Some((name0, value)) => {
                let name = trim(name0);
                if !spec_is_ident(name) || trim(value).len() == 0 {
                    None
                } else {
                    Some("alias "@ + name + " = "@ + spec_dequote(trim(value)))
                }
            },
            None => None,
        },
        None => None,
    }
}

pub fn rule_alias(input: &Vec<char>) -> (r: Option<Vec<char>>)
    ensures
        match r {
            Some(t) => spec_rule_alias(input@) == Some(t@),
            None => spec_rule_alias(input@) is None,
        },
{
    let rest = match strip_prefix_exec(input, "alias ") {
        Some(rest) => rest,
        None => return None,
    };
    let rest = trim_start_exec(&rest);
    let (name0, value) = match split_once_char(&rest, '=') {
        Some(p) => p,
        None => return None,
    };
    let name = trim_exec(&name0);
    let value_t = trim_exec(&value);
    if !is_ident(&name) || value_t.len() == 0 {
        return None;
    }
    let mut out: Vec<char> = Vec::new();
    push_str(&mut out, "alias ");
    push_all(&mut out, &name);
    push_str(&mut out, " = ");
    let d = dequote(&value_t);
    push_all(&mut out, &d);
    Some(out)
}

/// `. file` -> `source file` (the bare dot shorthand only).
pub open spec fn spec_rule_dot_source(s: Seq<char>) -> Option<Seq<char>> {
    match strip_prefix(s, ". "@) {
        Some(rest) => if trim(rest).len() == 0 {
            None
        } else {
            Some("source "@ + trim(rest))
        },
        None => None,
    }
}

pub fn rule_dot_source(input: &Vec<char>) -> (r: Option<Vec<char>>)
    ensures
        match r {
            Some(t) => spec_rule_dot_source(input@) == Some(t@),
            None => spec_rule_dot_source(input@) is None,
        },
{
    let rest = match strip_prefix_exec(input, ". ") {
        Some(rest) => rest,
        None => return None,
    };
    let t = trim_exec(&rest);
    if t.len() == 0 {
        return None;
    }
    let mut out = chars_of("source ");
    push_all(&mut out, &t);
    Some(out)
}

// ---------------------------------------------------------------------
// [[ ... ]] tests
// ---------------------------------------------------------------------

/// A bare `[[ ... ]]` test expression: `-f`, `-d`, `-z`, `-n`, `==`, `!=`.
pub open spec fn spec_rule_test_expression(s: Seq<char>) -> Option<Seq<char>> {
    match strip_prefix(trim(s), "[["@) {
        Some(a) => match strip_suffix(a, "]]"@) {
            Some(b) => test_inner(trim(b)),
            None => None,
        },
        None => None,
    }
}

/// The rewrite of the expression between `[[` and `]]`; a `==` or `!=`
/// inside quotes is text, not an operator.
pub open spec fn test_inner(inner: Seq<char>) -> Option<Seq<char>> {
    if let Some(arg) = strip_prefix(inner, "-f "@) {
        Some("("@ + trim(arg) + " | path exists)"@)
    } else if let Some(arg) = strip_prefix(inner, "-d "@) {
        Some("(("@ + trim(arg) + " | path type) == dir)"@)
    } else if let Some(arg) = strip_prefix(inner, "-z "@) {
        Some("("@ + trim(arg) + " == \"\")"@)
    } else if let Some(arg) = strip_prefix(inner, "-n "@) {
        Some("("@ + trim(arg) + " != \"\")"@)
    } else if let Some((l, r)) = split_once_unquoted(inner, "=="@) {
        Some("("@ + trim(l) + " == "@ + trim(r) + ")"@)
    } else if let Some((l, r)) = split_once_unquoted(inner, "!="@) {
        Some("("@ + trim(l) + " != "@ + trim(r) + ")"@)
    } else {
        None
    }
}

/// A `[[ OP X ]]` line, with a three-character operator such as `-z `,
/// comes down to the expression `OP X`.
proof fn lemma_test_line(op: Seq<char>, x: Seq<char>)
    requires
        op.len() == 3,
        op[0] == '-',
        op[2] == ' ',
        x.len() > 0,
        !is_ws(x.last()),
    ensures
        spec_rule_test_expression(seq!['[', '[', ' '] + op + x + seq![' ', ']', ']']) == test_inner(op + x),
{
    reveal_strlit("[[");
    reveal_strlit("]]");
    let s = seq!['[', '[', ' '] + op + x + seq![' ', ']', ']'];
    assert(s[0] == '[');
    assert(s.last() == ']');
    assert(trim_start(s) == s);
    assert(trim_end(s) == s);
    assert(s.subrange(0, 2) =~= "[["@);
    let a = s.skip(2);
    assert(strip_prefix(s, "[["@) == Some(a));
    assert(a.subrange(a.len() - 2, a.len() as int) =~= "]]"@);
    let b = a.take(a.len() - 2);
    assert(strip_suffix(a, "]]"@) == Some(b));
    assert(b =~= seq![' '] + (op + x + seq![' ']));
    let c = op + x + seq![' '];
    assert(b.drop_first() =~= c);
    assert(c[0] == '-');
    assert(trim_start(c) == c);
    assert(trim_start(b) == c);
    assert(c.drop_last() =~= op + x);
    assert((op + x).last() == x.last());
    assert(trim_end(op + x) == op + x);
    assert(trim_end(c) == op + x);
}

/// Law: `[[ -z X ]]` tests that X is empty and `[[ -n X ]]` that it is
/// not: they become `(X == "")` and `(X != "")`, opposite comparisons.
pub proof fn law_test_empty_and_nonempty(x: Seq<char>)
    requires
        x.len() > 0,
        !is_ws(x[0]),
        !is_ws(x.last()),
    ensures
        spec_rule_test_expression("[[ -z "@ + x + " ]]"@) == Some("("@ + x + " == \"\")"@),
        spec_rule_test_expression("[[ -n "@ + x + " ]]"@) == Some("("@ + x + " != \"\")"@),
{
    reveal_strlit("[[ -z ");
    reveal_strlit("[[ -n ");
    reveal_strlit(" ]]");
    reveal_strlit("-f ");
    reveal_strlit("-d ");
    reveal_strlit("-z ");
    reveal_strlit("-n ");
    assert(trim_start(x) == x);
    assert(trim_end(x) == x);
    let z = "-z "@;
    let n = "-n "@;
    lemma_test_line(z, x);
    lemma_test_line(n, x);
    assert("[[ -z "@ + x + " ]]"@ =~= seq!['[', '[', ' '] + z + x + seq![' ', ']', ']']);
    assert("[[ -n "@ + x + " ]]"@ =~= seq!['[', '[', ' '] + n + x + seq![' ', ']', ']']);
    let iz = z + x;
    let inn = n + x;
    assert(iz[1] == 'z' && inn[1] == 'n');
    assert(!matches_at(iz, "-f "@, 0) && !matches_at(iz, "-d "@, 0)) by {
        assert(iz.subrange(0, 3)[1] == 'z');
    }
    assert(iz.subrange(0, 3) =~= z);
    assert(iz.skip(3) =~= x);
    assert(!matches_at(inn, "-f "@, 0) && !matches_at(inn, "-d "@, 0) && !matches_at(inn, "-z "@, 0)) by {
        assert(inn.subrange(0, 3)[1] == 'n');
    }
    assert(inn.subrange(0, 3) =~= n);
    assert(inn.skip(3) =~= x);
}

/// `open` + `arg` + `close`.
fn wrap(open: &str, arg: &Vec<char>, close: &str) -> (r: Vec<char>)
    ensures
        r@ == open@ + arg@ + close@,
{
    let mut out = chars_of(open);
    push_all(&mut out, arg);
    push_str(&mut out, close);
    out
}

pub fn rule_test_expression(input: &Vec<char>) -> (r: Option<Vec<char>>)
    ensures
        match r {
            Some(t) => spec_rule_test_expression(input@) == Some(t@),
            None => spec_rule_test_expression(input@) is None,
        },
{
    let t = trim_exec(input);
    let a = match strip_prefix_exec(&t, "[[") {
        Some(a) => a,
        None => return None,
    };
    let b = match strip_suffix_exec(&a, "]]") {
        Some(b) => b,
        None => return None,
    };
    let inner = trim_exec(&b);
    if let Some(arg) = strip_prefix_exec(&inner, "-f ") {
        return Some(wrap("(", &trim_exec(&arg), " | path exists)"));
    }
    if let Some(arg) = strip_prefix_exec(&inner, "-d ") {
        return Some(wrap("((", &trim_exec(&arg), " | path type) == dir)"));
    }
    if let Some(arg) = strip_prefix_exec(&inner, "-z ") {
        return Some(wrap("(", &trim_exec(&arg), " == \"\")"));
    }
    if let Some(arg) = strip_prefix_exec(&inner, "-n ") {
        return Some(wrap("(", &trim_exec(&arg), " != \"\")"));
    }
    if let Some((l, r)) = split_once_unquoted_exec(&inner, "==") {
        let mut out = wrap("(", &trim_exec(&l), " == ");
        let rt = trim_exec(&r);
        push_all(&mut out, &rt);
        push_str(&mut out, ")");
        return Some(out);
    }
    if let Some((l, r)) = split_once_unquoted_exec(&inner, "!=") {
        let mut out = wrap("(", &trim_exec(&l), " != ");
        let rt = trim_exec(&r);
        push_all(&mut out, &rt);
        push_str(&mut out, ")");
        return Some(out);
    }
    None
}

/// What `trim_start` drops is a run of whitespace at the front.
proof fn lemma_trim_start_drops_ws(x: Seq<char>)
    ensures
        exists|a: int|
            0 <= a <= x.len() && trim_start(x) == x.skip(a) && forall|k: int|
                0 <= k < a ==> is_ws(#[trigger] x[k]),
    decreases x.len(),
{
    if x.len() > 0 && is_ws(x[0]) {
        let y = x.drop_first();
        lemma_trim_start_drops_ws(y);
        let a = choose|a: int|
            0 <= a <= y.len() && trim_start(y) == y.skip(a) && forall|k: int|
                0 <= k < a ==> is_ws(#[trigger] y[k]);
        assert(y.skip(a) =~= x.skip(a + 1));
        assert forall|k: int| 0 <= k < a + 1 implies is_ws(#[trigger] x[k]) by {
            if k > 0 {
                assert(x[k] == y[k - 1]);
            }
        }
    } else {
        assert(x.skip(0) =~= x);
    }
}

/// What `trim_end` drops is a run of whitespace at the back.
proof fn lemma_trim_end_drops_ws(x: Seq<char>)
    ensures
        exists|b: int|
            0 <= b <= x.len() && trim_end(x) == x.take(b) && forall|k: int|
                b <= k < x.len() ==> is_ws(#[trigger] x[k]),
    decreases x.len(),
{
    if x.len() > 0 && is_ws(x.last()) {
        let y = x.drop_last();
        lemma_trim_end_drops_ws(y);
        let b = choose|b: int|
            0 <= b <= y.len() && trim_end(y) == y.take(b) && forall|k: int|
                b <= k < y.len() ==> is_ws(#[trigger] y[k]);
        assert(y.take(b) =~= x.take(b));
        assert forall|k: int| b <= k < x.len() implies is_ws(#[trigger] x[k]) by {
            if k < x.len() - 1 {
                assert(x[k] == y[k]);
            }
        }
    } else {
        assert(x.take(x.len() as int) =~= x);
    }
}

/// A text whose trimmed form is an identifier holds no quote character.
proof fn lemma_padded_ident_no_quote(x: Seq<char>)
    requires
        spec_is_ident(trim(x)),
    ensures
        forall|k: int| 0 <= k < x.len() ==> #[trigger] x[k] != '\'' && x[k] != '"',
{
    lemma_trim_start_drops_ws(x);
    let a = choose|a: int|
        0 <= a <= x.len() && trim_start(x) == x.skip(a) && forall|k: int|
            0 <= k < a ==> is_ws(#[trigger] x[k]);
    let y = trim_start(x);
    lemma_trim_end_drops_ws(y);
    let b = choose|b: int|
        0 <= b <= y.len() && trim_end(y) == y.take(b) && forall|k: int|
            b <= k < y.len() ==> is_ws(#[trigger] y[k]);
    let n = trim(x);
    assert forall|k: int| 0 <= k < x.len() implies #[trigger] x[k] != '\'' && x[k] != '"' by {
        if k < a {
            assert(is_ws(x[k]));
        } else if k - a < b {
            assert(x[k] == n[k - a]);
            if k - a > 0 {
                assert(crate::text::ident_char(n[k - a]));
            }
        } else {
            assert(x[k] == y[k - a]);
            assert(is_ws(y[k - a]));
        }
    }
}

/// Law: `export NAME=value`, `alias NAME=value` and each `NAME=value` of an
/// env prefix split at an `=` that lies outside quotes: the name in front
/// of it holds no quote.
pub proof fn law_assignment_split_outside_quotes(t: Seq<char>)
    ensures
        match split_once(t, seq!['=']) {
            Some((name0, value)) => spec_is_ident(trim(name0)) ==> exists|i: int|
                {
                    &&& 0 <= i < t.len()
                    &&& t[i] == '='
                    &&& outside_quotes(t, i)
                    &&& name0 == t.take(i)
                    &&& value == t.skip(i + 1)
                },
            None => true,
        },
{
    crate::text::lemma_find_props(t, seq!['=']);
    if let Some((name0, value)) = split_once(t, seq!['=']) {
        if spec_is_ident(trim(name0)) {
            let i = crate::text::find(t, seq!['='])->0;
            assert(t.subrange(i, i + 1)[0] == t[i]);
            lemma_padded_ident_no_quote(name0);
            assert forall|k: int| 0 <= k < i implies #[trigger] t[k] != '\'' && t[k] != '"' by {
                assert(t[k] == name0[k]);
            }
            lemma_no_quote_before(t, i);
        }
    }
}

// ---------------------------------------------------------------------
// VAR=val cmd
// ---------------------------------------------------------------------

/// `rest` split at its first whitespace character outside quotes (which is
/// dropped), the remainder trimmed at the start; `(rest, "")` when there is
/// none.
pub open spec fn split_at_ws(rest: Seq<char>) -> (Seq<char>, Seq<char>) {
    match first_where(rest.len() as int, |j: int| is_ws(rest[j]) && outside_quotes(rest, j)) {
        Some(j) => (rest.take(j), trim_start(rest.skip(j + 1))),
        None => (rest, seq![]),
    }
}

pub proof fn lemma_split_at_ws(rest: Seq<char>)
    ensures
        split_at_ws(rest).0.len() > 0 && split_at_ws(rest).1.len() > 0 ==> split_at_ws(rest).1.len()
            < rest.len(),
{
    let p = |j: int| is_ws(rest[j]) && outside_quotes(rest, j);
    lemma_first_where_props(rest.len() as int, p);
    if let Some(j) = first_where(rest.len() as int, p) {
        lemma_trim_start_first(rest.skip(j + 1));
    }
}

/// Law: the words of an env prefix are cut only at whitespace outside
/// quotes, so a quoted value keeps its spaces.
pub proof fn law_env_words_split_outside_quotes(rest: Seq<char>)
    ensures
        split_at_ws(rest) == (rest, Seq::<char>::empty()) || exists|j: int|
            {
                &&& 0 <= j < rest.len()
                &&& is_ws(rest[j])
                &&& outside_quotes(rest, j)
                &&& split_at_ws(rest) == (rest.take(j), trim_start(rest.skip(j + 1)))
            },
{
    let p = |j: int| is_ws(rest[j]) && outside_quotes(rest, j);
    lemma_first_where_props(rest.len() as int, p);
    if let Some(j) = first_where(rest.len() as int, p) {
        assert(p(j));
    }
}

/// The leading `NAME=value` words of a line: the pairs, what follows them,
/// and whether the line was assignments only (no command).
pub open spec fn env_pairs(rest: Seq<char>) -> (Seq<(Seq<char>, Seq<char>)>, Seq<char>, bool)
    decreases rest.len(),
{
    let (token, after) = split_at_ws(rest);
    match split_once(token, seq!['=']) {
        Some((name, val)) => if spec_is_ident(name) && val.len() > 0 {
            if after.len() == 0 {
                (seq![], after, true)
            } else {
                proof {
                    lemma_split_at_ws(rest);
                    crate::text::lemma_find_props(token, seq!['=']);
                }
                let r = env_pairs(after);
                (seq![(name, val)] + r.0, r.1, r.2)
            }
        } else {
            (seq![], rest, false)
        },
        None => (seq![], rest, false),
    }
}

/// One `NAME: "value"` field of a nu record.
pub open spec fn record_field(p: (Seq<char>, Seq<char>)) -> Seq<char> {
    p.0 + ": "@ + nu_string_literal(p.1)
}

/// `VAR=val [VAR2=val2 ...] cmd args...` -> `with-env {VAR: "val"} { cmd args... }`;
/// a quoted value may hold whitespace.
pub open spec fn spec_rule_env_prefix(s: Seq<char>) -> Option<Seq<char>> {
    let r = env_pairs(s);
    if r.2 || r.0.len() == 0 {
        None
    } else {
        Some("with-env {"@ + join(r.0.map_values(|p: (Seq<char>, Seq<char>)| record_field(p)), ", "@)
            + "} { "@ + r.1 + " }"@)
    }
}

/// A line of `NAME=value` words, each followed by one space, then `cmd`.
pub open spec fn assignments_then(ps: Seq<(Seq<char>, Seq<char>)>, cmd: Seq<char>) -> Seq<char>
    decreases ps.len(),
{
    if ps.len() == 0 {
        cmd
    } else {
        ps[0].0 + seq!['='] + ps[0].1 + seq![' '] + assignments_then(ps.drop_first(), cmd)
    }
}

/// A character a plain (unquoted, unspaced) value may hold.
pub open spec fn plain_value_char(c: char) -> bool {
    !is_ws(c) && c != '\'' && c != '"'
}

/// The conditions of `law_env_prefix_takes_every_assignment` on the pairs.
pub open spec fn plain_assignments(ps: Seq<(Seq<char>, Seq<char>)>) -> bool {
    &&& forall|i: int| 0 <= i < ps.len() ==> spec_is_ident(#[trigger] ps[i].0)
    &&& forall|i: int| 0 <= i < ps.len() ==> #[trigger] ps[i].1.len() > 0
    &&& forall|i: int, k: int|
        0 <= i < ps.len() && 0 <= k < ps[i].1.len() ==> plain_value_char(#[trigger] ps[i].1[k])
}

/// The conditions on the command: it starts with a character that is not
/// whitespace, and its first word holds no `=` and no quote.
pub open spec fn plain_command(cmd: Seq<char>) -> bool {
    &&& cmd.len() > 0
    &&& !is_ws(cmd[0])
    &&& forall|k: int|
        0 <= k < crate::text::word_end(cmd) ==> #[trigger] cmd[k] != '=' && cmd[k] != '\'' && cmd[k] != '"'
}

proof fn lemma_env_pairs_of(ps: Seq<(Seq<char>, Seq<char>)>, cmd: Seq<char>)
    requires
        plain_assignments(ps),
        plain_command(cmd),
    ensures
        env_pairs(assignments_then(ps, cmd)) == (ps, cmd, false),
        assignments_then(ps, cmd).len() > 0,
        !is_ws(assignments_then(ps, cmd)[0]),
    decreases ps.len(),
{
    let x = assignments_then(ps, cmd);
    if ps.len() == 0 {
        crate::text::lemma_word_end(cmd);
        let e = crate::text::word_end(cmd);
        let pr = |j: int| is_ws(cmd[j]) && outside_quotes(cmd, j);
        assert forall|j: int| 0 <= j < e implies !#[trigger] pr(j) by {}
        if e < cmd.len() {
            lemma_no_quote_before(cmd, e);
            assert(pr(e));
            lemma_first_where_is(cmd.len() as int, pr, e);
        } else {
            lemma_first_where_none(cmd.len() as int, pr);
            assert(cmd.take(e) =~= cmd);
        }
        let token = cmd.take(e);
        assert(split_at_ws(cmd).0 == token);
        crate::text::lemma_find_props(token, seq!['=']);
        if let Some(i) = crate::text::find(token, seq!['=']) {
            assert(token.subrange(i, i + 1)[0] == token[i]);
            assert(token[i] == cmd[i]);
        }
        assert(split_once(token, seq!['=']) is None);
    } else {
        let rest = ps.drop_first();
        assert(plain_assignments(rest)) by {
            assert forall|i: int| 0 <= i < rest.len() implies spec_is_ident(#[trigger] rest[i].0) by {
                assert(rest[i] == ps[i + 1]);
            }
            assert forall|i: int| 0 <= i < rest.len() implies #[trigger] rest[i].1.len() > 0 by {
                assert(rest[i] == ps[i + 1]);
            }
            assert forall|i: int, k: int| 0 <= i < rest.len() && 0 <= k < rest[i].1.len() implies plain_value_char(
                #[trigger] rest[i].1[k],
            ) by {
                assert(rest[i] == ps[i + 1]);
            }
        }
        lemma_env_pairs_of(rest, cmd);
        let r = assignments_then(rest, cmd);
        let name = ps[0].0;
        let val = ps[0].1;
        assert(spec_is_ident(name));
        assert(val.len() > 0);
        let w = name + seq!['='] + val;
        assert(x =~= w + seq![' '] + r);
        // the first word is `w`, ended by the space outside quotes
        assert forall|j: int| 0 <= j < w.len() implies !is_ws(#[trigger] w[j]) && w[j] != '\'' && w[j] != '"' by {
            if j < name.len() {
                if j > 0 {
                    assert(crate::text::ident_char(name[j]));
                }
            } else if j > name.len() {
                assert(w[j] == val[j - name.len() - 1]);
                assert(plain_value_char(val[j - name.len() - 1]));
            }
        }
        let pr = |j: int| is_ws(x[j]) && outside_quotes(x, j);
        assert forall|j: int| 0 <= j < w.len() implies !#[trigger] pr(j) by {
            assert(x[j] == w[j]);
        }
        assert forall|k: int| 0 <= k < w.len() implies #[trigger] x[k] != '\'' && x[k] != '"' by {
            assert(x[k] == w[k]);
        }
        lemma_no_quote_before(x, w.len() as int);
        assert(x[w.len() as int] == ' ');
        assert(pr(w.len() as int));
        lemma_first_where_is(x.len() as int, pr, w.len() as int);
        assert(x.take(w.len() as int) =~= w);
        assert(x.skip(w.len() as int + 1) =~= r);
        assert(trim_start(r) == r);
        assert(split_at_ws(x) == (w, r));
        // the first `=` of the word follows the name
        let pe = |i: int| matches_at(w, seq!['='], i);
        assert forall|i: int| 0 <= i < name.len() implies !#[trigger] pe(i) by {
            assert(w.subrange(i, i + 1)[0] == w[i]);
            assert(w[i] == name[i]);
            if i > 0 {
                assert(crate::text::ident_char(name[i]));
            }
        }
        assert(w.subrange(name.len() as int, name.len() as int + 1) =~= seq!['=']);
        assert(pe(name.len() as int));
        lemma_first_where_is((w.len() + 1) as int, pe, name.len() as int);
        assert(w.take(name.len() as int) =~= name);
        assert(w.skip(name.len() as int + 1) =~= val);
        assert(split_once(w, seq!['=']) == Some((name, val)));
        assert(ps =~= seq![(name, val)] + rest);
        assert(x[0] == name[0]);
    }
}

/// Law: every leading `NAME=value` word of a line goes into the `with-env`
/// record, in order, and the command block holds the rest of the line,
/// which starts with no assignment.
pub proof fn law_env_prefix_takes_every_assignment(ps: Seq<(Seq<char>, Seq<char>)>, cmd: Seq<char>)
    requires
        ps.len() > 0,
        plain_assignments(ps),
        plain_command(cmd),
    ensures
        spec_rule_env_prefix(assignments_then(ps, cmd)) == Some(
            "with-env {"@ + join(
                ps.map_values(|p: (Seq<char>, Seq<char>)| p.0 + ": "@ + nu_string_literal(p.1)),
                ", "@,
            ) + "} { "@ + cmd + " }"@,
        ),
{
    lemma_env_pairs_of(ps, cmd);
    assert(ps.map_values(|p: (Seq<char>, Seq<char>)| record_field(p)) =~= ps.map_values(
        |p: (Seq<char>, Seq<char>)| p.0 + ": "@ + nu_string_literal(p.1),
    ));
}

fn split_at_ws_exec(rest: &Vec<char>) -> (r: (Vec<char>, Vec<char>))
    ensures
        split_at_ws(rest@) == (r.0@, r.1@),
{
    let flags = quote_flags(rest);
    let mut j: usize = 0;
    while j < rest.len() && !(is_whitespace(rest[j]) && flags[j])
        invariant
            0 <= j <= rest@.len(),
            flags@.len() == rest@.len() + 1,
            forall|k: int| 0 <= k <= rest@.len() ==> #[trigger] flags@[k] == outside_quotes(rest@, k),
            forall|k: int| 0 <= k < j ==> !(is_ws(#[trigger] rest@[k]) && outside_quotes(rest@, k)),
        decreases rest@.len() - j,
    {
        j = j + 1;
    }
    let ghost p = |k: int| is_ws(rest@[k]) && outside_quotes(rest@, k);
    if j < rest.len() {
        proof {
            lemma_first_where_is(rest@.len() as int, p, j as int);
        }
        let token = slice(rest, 0, j);
        let tail = slice(rest, j + 1, rest.len());
        let after = trim_start_exec(&tail);
        assert(token@ =~= rest@.take(j as int));
        assert(tail@ =~= rest@.skip(j + 1));
        (token, after)
    } else {
        proof {
            lemma_first_where_none(rest@.len() as int, p);
        }
        let token = slice(rest, 0, rest.len());
        assert(token@ =~= rest@);
        (token, Vec::new())
    }
}

pub fn rule_env_prefix(input: &Vec<char>) -> (r: Option<Vec<char>>)
    ensures
        match r {
            Some(t) => spec_rule_env_prefix(input@) == Some(t@),
            None => spec_rule_env_prefix(input@) is None,
        },
{
    let ghost whole = env_pairs(input@);
    let mut rest = slice(input, 0, input.len());
    assert(rest@ =~= input@);
    let mut names: Vec<Vec<char>> = Vec::new();
    let mut vals: Vec<Vec<char>> = Vec::new();
    let ghost mut pairs: Seq<(Seq<char>, Seq<char>)> = seq![];
    loop
        invariant
            names@.len() == vals@.len(),
            pairs.len() == names@.len(),
            forall|k: int| 0 <= k < pairs.len() ==> #[trigger] pairs[k] == (names@[k]@, vals@[k]@),
            whole == env_pairs(input@),
            whole == (pairs + env_pairs(rest@).0, env_pairs(rest@).1, env_pairs(rest@).2),
        ensures
            names@.len() == vals@.len(),
            pairs.len() == names@.len(),
            forall|k: int| 0 <= k < pairs.len() ==> #[trigger] pairs[k] == (names@[k]@, vals@[k]@),
            whole == env_pairs(input@),
            whole == (pairs, rest@, false),
        decreases rest@.len(),
    {
        let ghost cur = rest@;
        let (token, after) = split_at_ws_exec(&rest);
        match split_once_char(&token, '=') {
            Some((name, val)) => {
                if is_ident(&name) && val.len() > 0 {
                    if after.len() == 0 {
                        return None;
                    }
                    proof {
                        lemma_split_at_ws(cur);
                        crate::text::lemma_find_props(token@, seq!['=']);
                        let r = env_pairs(after@);
                        assert(env_pairs(cur) == (seq![(name@, val@)] + r.0, r.1, r.2));
                        assert(pairs + (seq![(name@, val@)] + r.0) =~= pairs.push((name@, val@)) + r.0);
                        pairs = pairs.push((name@, val@));
                    }
                    names.push(name);
                    vals.push(val);
                    rest = after;
                } else {
                    assert(env_pairs(cur) == (Seq::<(Seq<char>, Seq<char>)>::empty(), cur, false));
                    assert(pairs + Seq::<(Seq<char>, Seq<char>)>::empty() =~= pairs);
                    break;
                }
            },
            None => {
                assert(env_pairs(cur) == (Seq::<(Seq<char>, Seq<char>)>::empty(), cur, false));
                assert(pairs + Seq::<(Seq<char>, Seq<char>)>::empty() =~= pairs);
                break;
            },
        }
    }
    if names.len() == 0 {
        return None;
    }
    let ghost fields = pairs.map_values(|p: (Seq<char>, Seq<char>)| record_field(p));
    let mut record: Vec<char> = Vec::new();
    let mut i: usize = 0;
    assert(fields.take(0) =~= Seq::<Seq<char>>::empty());
    while i < names.len()
        invariant
            names@.len() == vals@.len(),
            pairs.len() == names@.len(),
            forall|k: int| 0 <= k < pairs.len() ==> #[trigger] pairs[k] == (names@[k]@, vals@[k]@),
            fields == pairs.map_values(|p: (Seq<char>, Seq<char>)| record_field(p)),
            0 <= i <= names@.len(),
            record@ == join(fields.take(i as int), ", "@),
        decreases names@.len() - i,
    {
        proof {
            lemma_join_step(fields, ", "@, i as int);
        }
        if i > 0 {
            push_str(&mut record, ", ");
        } else {
            assert(record@ =~= Seq::<char>::empty());
        }
        let ghost before = record@;
        push_all(&mut record, &names[i]);
        push_str(&mut record, ": ");
        let lit = to_nu_string_literal(&vals[i]);
        push_all(&mut record, &lit);
        assert(pairs[i as int] == (names@[i as int]@, vals@[i as int]@));
        assert(record@ =~= before + fields[i as int]);
        i = i + 1;
    }
    assert(fields.take(names@.len() as int) =~= fields);
    let mut out = chars_of("with-env {");
    push_all(&mut out, &record);
    push_str(&mut out, "} { ");
    push_all(&mut out, &rest);
    push_str(&mut out, " }");
    Some(out)
}

} // verus!
