//! Text that a shell reads.

use crate::choice::{ascending, lemma_one_more};
use crate::search::{at, find, lemma_find, replace, replace_all};
use crate::secrets::EnvGrant;
use crate::text::{blank, is_blank, pair_texts, push_pair, trim, trimmed};
use crate::output::{from_utf8_lossy, lossy};
use crate::words::concat;
use vstd::prelude::*;

verus! {

broadcast use vstd::string::group_string_axioms;

/// A value in single quotes, each single quote in it replaced by `'\''`.
pub open spec fn quoted_word(s: Seq<char>) -> Seq<char> {
    "'"@ + replace(s, "'"@, "'\\''"@, 0) + "'"@
}

/// Quotes a value so that a shell reads it as one word.
pub fn sh_quote(s: &str) -> (r: String)
    ensures
        r@ == quoted_word(s@),
{
    proof {
        reveal_strlit("'");
    }
    let mut out = "'".to_owned();
    out.push_str(&replace_all(s, "'", "'\\''"));
    out.push_str("'");
    out
}

/// How a shell reads a word: what stands between single quotes is taken as it is, and
/// outside of them a backslash takes the next character as it is. `None` where a quote
/// is not closed or the word ends in a backslash.
pub open spec fn shell_reads(s: Seq<char>, quoted: bool) -> Option<Seq<char>>
    decreases s.len(),
{
    if s.len() == 0 {
        if quoted {
            None
        } else {
            Some(seq![])
        }
    } else if s[0] == '\'' {
        shell_reads(s.drop_first(), !quoted)
    } else if s[0] == '\\' && !quoted {
        if s.len() < 2 {
            None
        } else {
            match shell_reads(s.skip(2), false) {
                Some(rest) => Some(seq![s[1]] + rest),
                None => None,
            }
        }
    } else {
        match shell_reads(s.drop_first(), quoted) {
            Some(rest) => Some(seq![s[0]] + rest),
            None => None,
        }
    }
}

proof fn lemma_reads_plain(p: Seq<char>, t: Seq<char>)
    requires
        forall|i: int| 0 <= i < p.len() ==> #[trigger] p[i] != '\'',
    ensures
        shell_reads(p + t, true) == match shell_reads(t, true) {
            Some(rest) => Some(p + rest),
            None => None,
        },
    decreases p.len(),
{
    if p.len() == 0 {
        assert(p + t =~= t);
        if shell_reads(t, true) is Some {
            assert(p + shell_reads(t, true)->0 =~= shell_reads(t, true)->0);
        }
    } else {
        let q = p.drop_first();
        assert forall|i: int| 0 <= i < q.len() implies #[trigger] q[i] != '\'' by {
            assert(q[i] == p[i + 1]);
        }
        lemma_reads_plain(q, t);
        assert((p + t).drop_first() =~= q + t);
        assert((p + t)[0] == p[0]);
        assert(p[0] != '\'');
        if shell_reads(t, true) is Some {
            let rest = shell_reads(t, true)->0;
            assert(seq![p[0]] + (q + rest) =~= p + rest);
        }
    }
}

proof fn lemma_reads_escape(t: Seq<char>)
    ensures
        shell_reads("'\\''"@ + t, true) == match shell_reads(t, true) {
            Some(rest) => Some(seq!['\''] + rest),
            None => None,
        },
{
    reveal_strlit("'\\''");
    let e = "'\\''"@;
    let s = e + t;
    assert(e =~= seq!['\'', '\\', '\'', '\'']);
    let s1 = s.drop_first();
    assert(s1[0] == '\\' && s1[1] == '\'');
    let s3 = s1.skip(2);
    assert(s3[0] == '\'');
    assert(s3.drop_first() =~= t);
    assert(shell_reads(s3, false) == shell_reads(t, true));
    assert(s[0] == '\'');
    assert(shell_reads(s, true) == shell_reads(s1, false));
    assert(s1.len() >= 2);
    assert(shell_reads(s1, false) == match shell_reads(s3, false) {
        Some(rest) => Some(seq![s1[1]] + rest),
        None => None,
    });
}

proof fn lemma_reads_replaced(s: Seq<char>, from: int)
    requires
        0 <= from <= s.len(),
    ensures
        shell_reads(replace(s, "'"@, "'\\''"@, from) + "'"@, true) == Some(s.skip(from)),
    decreases s.len() - from,
{
    reveal_strlit("'");
    let q = "'"@;
    let e = "'\\''"@;
    assert(q =~= seq!['\'']);
    lemma_find(s, q, from);
    match find(s, q, from) {
        Some(i) => {
            let p = s.subrange(from, i);
            let r = replace(s, q, e, i + 1);
            lemma_reads_replaced(s, i + 1);
            assert forall|k: int| 0 <= k < p.len() implies #[trigger] p[k] != '\'' by {
                if s[from + k] == '\'' {
                    assert(s.subrange(from + k, from + k + 1) =~= q);
                    assert(at(s, q, from + k));
                }
            }
            assert(p + e + r + q =~= p + (e + (r + q)));
            lemma_reads_escape(r + q);
            lemma_reads_plain(p, e + (r + q));
            assert(s.subrange(i, i + 1)[0] == s[i]);
            assert(p + (seq!['\''] + s.skip(i + 1)) =~= s.skip(from));
        },
        None => {
            let p = s.skip(from);
            assert forall|k: int| 0 <= k < p.len() implies #[trigger] p[k] != '\'' by {
                if s[from + k] == '\'' {
                    assert(s.subrange(from + k, from + k + 1) =~= q);
                    assert(at(s, q, from + k));
                }
            }
            lemma_reads_plain(p, q);
            assert(q.drop_first() =~= seq![]);
            assert(shell_reads(q, true) == Some(Seq::<char>::empty())) by {
                reveal_with_fuel(shell_reads, 2);
            }
            assert(p + Seq::<char>::empty() =~= p);
        },
    }
}

/// A shell reads a quoted value back as the value, whatever characters it holds.
pub proof fn quoting_is_read_back(s: Seq<char>)
    ensures
        shell_reads(quoted_word(s), false) == Some(s),
{
    reveal_strlit("'");
    let w = quoted_word(s);
    lemma_reads_replaced(s, 0);
    assert(s.skip(0) =~= s);
    assert(w[0] == '\'');
    assert(w.drop_first() =~= replace(s, "'"@, "'\\''"@, 0) + "'"@);
}

// ---------------------------------------------------------------------------
// Secrets that a command gives
// ---------------------------------------------------------------------------

/// The first `n` variables as a shell is told them, in front of a command.
pub open spec fn exports(vars: Seq<(String, String)>, n: int) -> Seq<char>
    decreases n,
{
    if n <= 0 {
        seq![]
    } else {
        exports(vars, n - 1) + ("export "@ + vars[n - 1].0@ + "="@ + quoted_word(vars[n - 1].1@)
            + "; "@)
    }
}

/// Variables as a shell is told them, in front of a command.
pub fn secret_exports(vars: &Vec<(String, String)>) -> (r: String)
    ensures
        r@ == exports(vars@, vars@.len() as int),
{
    let mut out = String::new();
    let mut i: usize = 0;
    assert(out@ =~= seq![]);
    while i < vars.len()
        invariant
            i <= vars@.len(),
            out@ == exports(vars@, i as int),
        decreases vars.len() - i,
    {
        let mut one = "export ".to_owned();
        one.push_str(&vars[i].0);
        one.push_str("=");
        one.push_str(&sh_quote(&vars[i].1));
        one.push_str("; ");
        out.push_str(&one);
        i = i + 1;
    }
    out
}

/// The value that a command gave: what it wrote, without white space around it, where
/// it succeeded and wrote something.
pub fn command_value(success: bool, stdout: &Vec<u8>) -> (r: Option<String>)
    ensures
        r is Some <==> success && trim(lossy(stdout@)).len() > 0,
        r is Some ==> (r->0)@ == trim(lossy(stdout@)),
{
    if !success {
        return None;
    }
    let v = trimmed(&from_utf8_lossy(stdout));
    if v.as_str().is_empty() {
        None
    } else {
        Some(v)
    }
}

/// Seconds for which the values of secrets are used again.
pub const SECRET_TTL_SECS: u64 = 60;

/// Whether values that were found this long ago are used again.
pub fn still_fresh(elapsed_secs: u64) -> (r: bool)
    ensures
        r == (elapsed_secs < SECRET_TTL_SECS),
{
    elapsed_secs < SECRET_TTL_SECS
}

/// The command that gives a secret its value, if one does.
pub open spec fn value_command(g: EnvGrant) -> Option<Seq<char>> {
    match g.source_command {
        Some(c) => if blank(c@) {
            None
        } else {
            Some(trim(c@))
        },
        None => None,
    }
}

/// Those of the first `n` secrets that a command gives, each with its command.
pub open spec fn by_command(grants: Seq<EnvGrant>, n: int) -> Seq<(Seq<char>, Seq<char>)>
    decreases n,
{
    if n <= 0 {
        seq![]
    } else {
        match value_command(grants[n - 1]) {
            Some(c) => by_command(grants, n - 1).push((grants[n - 1].name@, c)),
            None => by_command(grants, n - 1),
        }
    }
}

/// The secrets that a command gives, each with its command.
pub fn value_commands(grants: &Vec<EnvGrant>) -> (r: Vec<(String, String)>)
    ensures
        pair_texts(r@) == by_command(grants@, grants@.len() as int),
{
    let mut out: Vec<(String, String)> = Vec::new();
    let mut i: usize = 0;
    assert(pair_texts(out@) =~= seq![]);
    while i < grants.len()
        invariant
            i <= grants@.len(),
            pair_texts(out@) == by_command(grants@, i as int),
        decreases grants.len() - i,
    {
        match &grants[i].source_command {
            Some(c) => {
                if !is_blank(c) {
                    push_pair(&mut out, &grants[i].name, trimmed(c));
                }
            },
            None => {},
        }
        i = i + 1;
    }
    out
}

/// The first `n` variables that got a value.
pub open spec fn with_values(
    commands: Seq<(String, String)>,
    values: Seq<Option<String>>,
    n: int,
) -> Seq<(Seq<char>, Seq<char>)>
    decreases n,
{
    if n <= 0 {
        seq![]
    } else {
        match values[n - 1] {
            Some(v) => with_values(commands, values, n - 1).push((commands[n - 1].0@, v@)),
            None => with_values(commands, values, n - 1),
        }
    }
}

/// The variables that got a value from their commands.
pub fn found_values(commands: &Vec<(String, String)>, values: &Vec<Option<String>>) -> (r: Vec<
    (String, String),
>)
    requires
        values@.len() == commands@.len(),
    ensures
        pair_texts(r@) == with_values(commands@, values@, commands@.len() as int),
{
    let mut out: Vec<(String, String)> = Vec::new();
    let mut i: usize = 0;
    assert(pair_texts(out@) =~= seq![]);
    while i < commands.len()
        invariant
            i <= commands@.len() == values@.len(),
            pair_texts(out@) == with_values(commands@, values@, i as int),
        decreases commands.len() - i,
    {
        match &values[i] {
            Some(v) => {
                push_pair(&mut out, &commands[i].0, v.clone());
            },
            None => {},
        }
        i = i + 1;
    }
    out
}

/// What is put in front of a command sets every variable, in order, each to its value as a
/// shell reads it back.
pub proof fn exports_set_each_variable(vars: Seq<(String, String)>, n: int, i: int)
    requires
        0 <= i < n <= vars.len(),
    ensures
        exports(vars, n) == concat(
            Seq::new(
                n as nat,
                |k: int| "export "@ + vars[k].0@ + "="@ + quoted_word(vars[k].1@) + "; "@,
            ),
        ),
        shell_reads(quoted_word(vars[i].1@), false) == Some(vars[i].1@),
{
    lemma_exports(vars, n);
    quoting_is_read_back(vars[i].1@);
}

proof fn lemma_exports(vars: Seq<(String, String)>, n: int)
    requires
        0 <= n <= vars.len(),
    ensures
        exports(vars, n) == concat(
            Seq::new(
                n as nat,
                |k: int| "export "@ + vars[k].0@ + "="@ + quoted_word(vars[k].1@) + "; "@,
            ),
        ),
    decreases n,
{
    let all = Seq::new(
        n as nat,
        |k: int| "export "@ + vars[k].0@ + "="@ + quoted_word(vars[k].1@) + "; "@,
    );
    if n > 0 {
        lemma_exports(vars, n - 1);
        assert(all.drop_last() =~= Seq::new(
            (n - 1) as nat,
            |k: int| "export "@ + vars[k].0@ + "="@ + quoted_word(vars[k].1@) + "; "@,
        ));
    } else {
        assert(all =~= seq![]);
    }
}

/// The variables that a command gives are those whose grant names one that is not blank,
/// each once and in order.
pub proof fn commands_give_variables(grants: Seq<EnvGrant>, n: int) -> (js: Seq<int>)
    requires
        0 <= n <= grants.len(),
    ensures
        ascending(js, n),
        forall|i: int|
            0 <= i < n ==> (#[trigger] js.contains(i) <==> grants[i].source_command is Some
                && !blank((grants[i].source_command->0)@)),
        by_command(grants, n) == Seq::new(
            js.len(),
            |k: int| (grants[js[k]].name@, trim((grants[js[k]].source_command->0)@)),
        ),
    decreases n,
{
    if n == 0 {
        let js: Seq<int> = seq![];
        assert(by_command(grants, n) =~= Seq::new(
            js.len(),
            |k: int| (grants[js[k]].name@, trim((grants[js[k]].source_command->0)@)),
        ));
        js
    } else {
        let before = commands_give_variables(grants, n - 1);
        lemma_one_more(before, n - 1);
        if value_command(grants[n - 1]) is Some {
            let js = before.push(n - 1);
            assert(by_command(grants, n) =~= Seq::new(
                js.len(),
                |k: int| (grants[js[k]].name@, trim((grants[js[k]].source_command->0)@)),
            ));
            js
        } else {
            before
        }
    }
}

/// The variables with a value are those whose command gave one, each with what it gave.
pub proof fn values_belong_to_their_variables(
    commands: Seq<(String, String)>,
    values: Seq<Option<String>>,
    n: int,
) -> (js: Seq<int>)
    requires
        0 <= n <= commands.len() == values.len(),
    ensures
        ascending(js, n),
        forall|i: int| 0 <= i < n ==> (#[trigger] js.contains(i) <==> values[i] is Some),
        with_values(commands, values, n) == Seq::new(
            js.len(),
            |k: int| (commands[js[k]].0@, (values[js[k]]->0)@),
        ),
    decreases n,
{
    if n == 0 {
        let js: Seq<int> = seq![];
        assert(with_values(commands, values, n) =~= Seq::new(
            js.len(),
            |k: int| (commands[js[k]].0@, (values[js[k]]->0)@),
        ));
        js
    } else {
        let before = values_belong_to_their_variables(commands, values, n - 1);
        lemma_one_more(before, n - 1);
        if values[n - 1] is Some {
            let js = before.push(n - 1);
            assert(with_values(commands, values, n) =~= Seq::new(
                js.len(),
                |k: int| (commands[js[k]].0@, (values[js[k]]->0)@),
            ));
            js
        } else {
            before
        }
    }
}

} // verus!
