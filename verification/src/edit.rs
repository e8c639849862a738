//! Applying a batch of edits to the text of one file, all or nothing.

use crate::diagnose::{ambiguous, ambiguous_diagnosis, not_found, not_found_diagnosis};
use crate::repair::{repair, repair_edit, repaired_edit_matches, EditSpec};
use crate::search::{at, begins_inside, contains, count, count_of, left_over, lemma_contains_count, lemma_count_two,
    lemma_find, lemma_replace_joins, lemma_replace_same, lemma_replace_single, lemma_successive, replace, replace_all,
    replace_first, replace_once, successive};
use crate::text::strs;
use crate::words::{concat, dec, decimal, decimal_size, join, plural, plural_suffix};
use vstd::prelude::*;

verus! {

broadcast use vstd::string::group_string_axioms;

/// What a batch of edits made of a file.
#[derive(Debug)]
pub struct Edited {
    /// The text after every edit.
    pub text: String,
    /// Whether that differs from the text before, and has to be written.
    pub changed: bool,
    /// What is said about it.
    pub report: String,
}

// ---------------------------------------------------------------------------
// The two argument shapes
// ---------------------------------------------------------------------------

/// The message on arguments that name no list of edits, if they do not.
pub open spec fn shape_error(old: bool, new: bool, edits: nat) -> Option<Seq<char>> {
    if edits > 0 {
        if old || new {
            Some(
                "pass either `old`/`new` or `edits`, not both; put every change in `edits` if there is more than one"@,
            )
        } else {
            None
        }
    } else if old && new {
        None
    } else if old {
        Some("`new` is required alongside `old`"@)
    } else if new {
        Some("`old` is required alongside `new`"@)
    } else {
        Some("nothing to do: provide `old`/`new`, or a non-empty `edits` list"@)
    }
}

/// Reconciles the two argument shapes into one list of edits; mixing them is
/// refused rather than merged.
pub fn edit_specs(
    old: Option<String>,
    new: Option<String>,
    replace_all: bool,
    edits: Vec<EditSpec>,
) -> (r: Result<Vec<EditSpec>, String>)
    ensures
        match shape_error(old is Some, new is Some, edits@.len()) {
            Some(msg) => r is Err && r->Err_0@ == msg,
            None => if edits@.len() > 0 {
                r == Ok::<Vec<EditSpec>, String>(edits)
            } else {
                &&& r is Ok
                &&& r->Ok_0@.len() == 1
                &&& r->Ok_0@[0] == (EditSpec { old: old->0, new: new->0, replace_all })
            },
        },
{
    if edits.len() > 0 {
        if old.is_some() || new.is_some() {
            return Err(
                "pass either `old`/`new` or `edits`, not both; put every change in `edits` if there is more than one".to_owned(),
            );
        }
        return Ok(edits);
    }
    match (old, new) {
        (Some(old), Some(new)) => {
            let mut one: Vec<EditSpec> = Vec::new();
            one.push(EditSpec { old, new, replace_all });
            Ok(one)
        },
        (Some(_), None) => Err("`new` is required alongside `old`".to_owned()),
        (None, Some(_)) => Err("`old` is required alongside `new`".to_owned()),
        (None, None) => Err(
            "nothing to do: provide `old`/`new`, or a non-empty `edits` list".to_owned(),
        ),
    }
}

// ---------------------------------------------------------------------------
// One edit
// ---------------------------------------------------------------------------

/// A file under edit: its text, the replacements so far, the repairs so far.
pub struct Draft {
    pub text: Seq<char>,
    pub total: nat,
    pub notes: Seq<Seq<char>>,
}

/// What is looked for and what replaces it: the edit as given where its text is in
/// the file, else as repaired.
pub open spec fn effective(text: Seq<char>, spec: EditSpec) -> Option<(Seq<char>, Seq<char>)> {
    if count(text, spec.old@, 0) > 0 {
        Some((spec.old@, spec.new@))
    } else {
        match repair(text, spec.old@, spec.new@) {
            Some(fix) => Some((fix.old, fix.new)),
            None => None,
        }
    }
}

/// The text after one edit, where the edit can be applied: its text is not empty,
/// it occurs, and it occurs once or all of it is meant.
pub open spec fn edited(text: Seq<char>, spec: EditSpec) -> Option<Seq<char>> {
    match effective(text, spec) {
        Some((old, new)) => if spec.old@.len() == 0 || (count(text, old, 0) > 1
            && !spec.replace_all) {
            None
        } else if spec.replace_all {
            Some(replace(text, old, new, 0))
        } else {
            Some(replace_once(text, old, new))
        },
        None => None,
    }
}

/// The message on an edit that cannot be applied.
pub open spec fn refusal(path: Seq<char>, text: Seq<char>, spec: EditSpec) -> Seq<char> {
    if spec.old@.len() == 0 {
        "`old` must not be empty; use the write tool to create or overwrite a file"@
    } else {
        match effective(text, spec) {
            None => not_found(path, text, spec.old@),
            Some((old, _)) => ambiguous(path, text, old, count(text, old, 0)),
        }
    }
}

/// How an edit is called in messages: by its place where there are several.
pub open spec fn label(i: int, n: int) -> Seq<char> {
    if n > 1 {
        "edit "@ + dec((i + 1) as nat) + " of "@ + dec(n as nat) + ": "@
    } else {
        seq![]
    }
}

/// One edit applied to a draft.
pub open spec fn step(path: Seq<char>, d: Draft, spec: EditSpec, label: Seq<char>) -> Result<
    Draft,
    Seq<char>,
> {
    match edited(d.text, spec) {
        None => Err(label + refusal(path, d.text, spec)),
        Some(text) => Ok(
            Draft {
                text,
                total: d.total + count(d.text, (effective(d.text, spec)->0).0, 0),
                notes: if count(d.text, spec.old@, 0) > 0 {
                    d.notes
                } else {
                    d.notes.push(label + (repair(d.text, spec.old@, spec.new@)->0).note)
                },
            },
        ),
    }
}

/// The first `n` edits applied in order, each to what the ones before produced.
pub open spec fn run(path: Seq<char>, original: Seq<char>, specs: Seq<EditSpec>, n: int) -> Result<
    Draft,
    Seq<char>,
>
    decreases n,
{
    if n <= 0 {
        Ok(Draft { text: original, total: 0, notes: seq![] })
    } else {
        match run(path, original, specs, n - 1) {
            Err(e) => Err(e),
            Ok(d) => step(path, d, specs[n - 1], label(n - 1, specs.len() as int)),
        }
    }
}

/// The notes, a line each.
pub open spec fn note_lines(notes: Seq<Seq<char>>) -> Seq<char> {
    concat(Seq::new(notes.len(), |i: int| "note: "@ + notes[i] + "\n"@))
}

/// What is said about a batch of `n` edits that was applied.
pub open spec fn edit_report(path: Seq<char>, original: Seq<char>, d: Draft, n: nat) -> Seq<char> {
    let head = if d.text == original {
        "edited "@ + path + ": "@ + dec(d.total) + " replacement"@ + plural_suffix(d.total as int)
            + ", but the file content is unchanged (`new` matched `old`)\n"@
    } else {
        "edited "@ + path + ": "@ + dec(n) + " edit"@ + plural_suffix(n as int) + " applied, "@ + dec(
            d.total,
        ) + " replacement"@ + plural_suffix(d.total as int) + "\n"@
    };
    head + note_lines(d.notes)
}

fn label_of(i: usize, n: usize) -> (r: String)
    requires
        i < n,
    ensures
        r@ == label(i as int, n as int),
{
    if n > 1 {
        let mut out = "edit ".to_owned();
        out.push_str(&decimal_size(i + 1));
        out.push_str(" of ");
        out.push_str(&decimal_size(n));
        out.push_str(": ");
        out
    } else {
        let out = String::new();
        assert(out@ =~= seq![]);
        out
    }
}

/// One edit on strings: the new text, how often it matched, and the note of a
/// repair.
fn apply_one(path: &str, text: &str, spec: &EditSpec) -> (r: Result<
    (String, usize, Option<String>),
    String,
>)
    ensures
        match r {
            Ok((t, n, note)) => {
                &&& edited(text@, *spec) == Some(t@)
                &&& n == count(text@, (effective(text@, *spec)->0).0, 0)
                &&& (note is None <==> count(text@, spec.old@, 0) > 0)
                &&& note is Some ==> (note->0)@ == (repair(
                    text@,
                    spec.old@,
                    spec.new@,
                )->0).note
            },
            Err(e) => edited(text@, *spec) is None && e@ == refusal(path@, text@, *spec),
        },
{
    if spec.old.as_str().is_empty() {
        return Err(
            "`old` must not be empty; use the write tool to create or overwrite a file".to_owned(),
        );
    }
    proof {
        repaired_edit_matches(text@, spec.old@, spec.new@);
    }
    let mut old = spec.old.clone();
    let mut new = spec.new.clone();
    let mut note: Option<String> = None;
    let mut n = count_of(text, &old);
    if n == 0 {
        match repair_edit(text, spec) {
            Some(fix) => {
                n = count_of(text, &fix.old);
                old = fix.old;
                new = fix.new;
                note = Some(fix.note);
            },
            None => {
                return Err(not_found_diagnosis(path, text, &spec.old));
            },
        }
    }
    if n > 1 && !spec.replace_all {
        return Err(ambiguous_diagnosis(path, text, &old, n));
    }
    let out = if spec.replace_all {
        replace_all(text, &old, &new)
    } else {
        replace_first(text, &old, &new)
    };
    Ok((out, n, note))
}

/// Applies every edit to the text of `path`, all or nothing: an edit that cannot be
/// applied refuses the batch, and no text comes back.
pub fn edit(path: &str, original: &str, specs: &Vec<EditSpec>) -> (r: Result<Edited, String>)
    ensures
        match run(path@, original@, specs@, specs@.len() as int) {
            Err(e) => r is Err && r->Err_0@ == e,
            Ok(d) => {
                &&& r is Ok
                &&& r->Ok_0.text@ == d.text
                &&& r->Ok_0.changed == (d.text != original@)
                &&& r->Ok_0.report@ == edit_report(path@, original@, d, specs@.len())
            },
        },
{
    let mut text = original.to_owned();
    let mut total: u128 = 0;
    let mut notes: Vec<String> = Vec::new();
    let ghost n = specs@.len() as int;
    let mut i: usize = 0;
    assert(strs(notes@) =~= seq![]);
    while i < specs.len()
        invariant
            i <= specs@.len(),
            n == specs@.len(),
            total <= i * usize::MAX,
            run(path@, original@, specs@, i as int) == Ok::<Draft, Seq<char>>(
                Draft { text: text@, total: total as nat, notes: strs(notes@) },
            ),
        decreases specs.len() - i,
    {
        let tag = label_of(i, specs.len());
        let ghost before = Draft { text: text@, total: total as nat, notes: strs(notes@) };
        match apply_one(path, &text, &specs[i]) {
            Err(msg) => {
                let mut out = tag;
                out.push_str(&msg);
                proof {
                    assert(run(path@, original@, specs@, i + 1) == Err::<Draft, Seq<char>>(out@));
                    lemma_run_err(path@, original@, specs@, i + 1, n, out@);
                }
                return Err(out);
            },
            Ok((next, k, note)) => {
                assert(i * usize::MAX + usize::MAX == (i + 1) * usize::MAX) by (nonlinear_arith);
                assert((i + 1) * usize::MAX <= usize::MAX * usize::MAX) by (nonlinear_arith)
                    requires
                        i + 1 <= usize::MAX,
                ;
                assert(usize::MAX * usize::MAX <= u128::MAX) by (nonlinear_arith);
                total = total + k as u128;
                match note {
                    Some(m) => {
                        let mut out = tag;
                        out.push_str(&m);
                        let ghost was = notes@;
                        notes.push(out);
                        assert(strs(notes@) =~= strs(was).push(out@));
                    },
                    None => {},
                }
                text = next;
            },
        }
        i = i + 1;
    }
    let changed = !crate::text::same(&text, original);
    let mut out = "edited ".to_owned();
    out.push_str(path);
    out.push_str(": ");
    let many: usize = if total == 1 { 1 } else { 2 };
    if !changed {
        out.push_str(&decimal(total));
        out.push_str(" replacement");
        out.push_str(plural(many));
        out.push_str(", but the file content is unchanged (`new` matched `old`)\n");
    } else {
        out.push_str(&decimal_size(specs.len()));
        out.push_str(" edit");
        out.push_str(plural(specs.len()));
        out.push_str(" applied, ");
        out.push_str(&decimal(total));
        out.push_str(" replacement");
        out.push_str(plural(many));
        out.push_str("\n");
    }
    let ghost head = out@;
    let ghost ns = strs(notes@);
    let mut k: usize = 0;
    assert(Seq::new(0, |j: int| "note: "@ + ns[j] + "\n"@) =~= seq![]);
    assert(head + concat(seq![]) =~= head);
    while k < notes.len()
        invariant
            k <= notes@.len(),
            ns == strs(notes@),
            out@ == head + concat(Seq::new(k as nat, |j: int| "note: "@ + ns[j] + "\n"@)),
        decreases notes.len() - k,
    {
        let ghost before = out@;
        out.push_str("note: ");
        out.push_str(&notes[k]);
        out.push_str("\n");
        proof {
            let next = Seq::new((k + 1) as nat, |j: int| "note: "@ + ns[j] + "\n"@);
            assert(next.drop_last() =~= Seq::new(k as nat, |j: int| "note: "@ + ns[j] + "\n"@));
            assert(next.last() == "note: "@ + notes@[k as int]@ + "\n"@);
            assert(out@ =~= head + concat(next));
        }
        k = k + 1;
    }
    Ok(Edited { text, changed, report: out })
}

/// A batch that fails at one edit fails as a whole, with that edit's message.
proof fn lemma_run_err(
    path: Seq<char>,
    original: Seq<char>,
    specs: Seq<EditSpec>,
    i: int,
    n: int,
    msg: Seq<char>,
)
    requires
        0 <= i <= n,
        run(path, original, specs, i) == Err::<Draft, Seq<char>>(msg),
    ensures
        run(path, original, specs, n) == Err::<Draft, Seq<char>>(msg),
    decreases n,
{
    if i < n {
        lemma_run_err(path, original, specs, i, n - 1, msg);
    }
}

// ---------------------------------------------------------------------------
// Laws
// ---------------------------------------------------------------------------

/// The text that a batch makes of `original`, where every edit can be applied.
pub open spec fn batch_text(original: Seq<char>, specs: Seq<EditSpec>) -> Option<Seq<char>>
    decreases specs.len(),
{
    if specs.len() == 0 {
        Some(original)
    } else {
        match batch_text(original, specs.drop_last()) {
            Some(t) => edited(t, specs.last()),
            None => None,
        }
    }
}

proof fn lemma_run_text(path: Seq<char>, original: Seq<char>, specs: Seq<EditSpec>, n: int)
    requires
        0 <= n <= specs.len(),
    ensures
        match run(path, original, specs, n) {
            Ok(d) => batch_text(original, specs.take(n)) == Some(d.text),
            Err(_) => batch_text(original, specs.take(n)) is None,
        },
    decreases n,
{
    if n > 0 {
        lemma_run_text(path, original, specs, n - 1);
        assert(specs.take(n).drop_last() =~= specs.take(n - 1));
    }
}

/// Whether a batch is applied, and the text it makes, depend on the file's text and
/// the edits alone, not on the path or on how the edits are numbered.
pub proof fn batch_is_its_edits(path: Seq<char>, original: Seq<char>, specs: Seq<EditSpec>)
    ensures
        match run(path, original, specs, specs.len() as int) {
            Ok(d) => batch_text(original, specs) == Some(d.text),
            Err(_) => batch_text(original, specs) is None,
        },
{
    lemma_run_text(path, original, specs, specs.len() as int);
    assert(specs.take(specs.len() as int) =~= specs);
}

/// A batch in two halves is one half after the other: the second matches against
/// what the first produced, and either failing fails the whole.
pub proof fn batches_compose(original: Seq<char>, first: Seq<EditSpec>, second: Seq<EditSpec>)
    ensures
        batch_text(original, first + second) == match batch_text(original, first) {
            Some(t) => batch_text(t, second),
            None => None,
        },
    decreases second.len(),
{
    if second.len() == 0 {
        assert(first + second =~= first);
    } else {
        batches_compose(original, first, second.drop_last());
        assert((first + second).drop_last() =~= first + second.drop_last());
    }
}

/// An edit whose text is in the file, and whose replacement is that text, changes
/// nothing.
pub proof fn replacing_by_itself_changes_nothing(text: Seq<char>, spec: EditSpec)
    requires
        spec.old@ == spec.new@,
        count(text, spec.old@, 0) > 0,
        spec.replace_all || count(text, spec.old@, 0) == 1,
    ensures
        edited(text, spec) == Some(text),
{
    lemma_replace_same(text, spec.old@, 0);
    lemma_find(text, spec.old@, 0);
    assert(text.skip(0) =~= text);
}

/// An edit that is applied replaces text that stands in the file.
pub proof fn applied_edit_matched(text: Seq<char>, spec: EditSpec)
    requires
        edited(text, spec) is Some,
    ensures
        contains(text, (effective(text, spec)->0).0),
        count(text, (effective(text, spec)->0).0, 0) > 0,
{
    repaired_edit_matches(text, spec.old@, spec.new@);
    lemma_contains_count(text, (effective(text, spec)->0).0);
}

/// An edit whose text is met once in the file replaces it where it stands, whatever it
/// is replaced by: the file is what was in front of it, the new text, and what was
/// behind it. Other places at which the text stands are none, or begin inside it.
pub proof fn single_edits_splice(path: Seq<char>, text: Seq<char>, spec: EditSpec, i: int)
    requires
        spec.old@.len() > 0,
        0 <= i,
        i + spec.old@.len() <= text.len(),
        text.subrange(i, i + spec.old@.len()) == spec.old@,
        forall|k: int|
            0 <= k && k + spec.old@.len() <= text.len() && #[trigger] text.subrange(
                k,
                k + spec.old@.len(),
            ) == spec.old@ ==> i <= k < i + spec.old@.len(),
    ensures
        run(path, text, seq![spec], 1) == Ok::<Draft, Seq<char>>(
            Draft {
                text: text.take(i) + spec.new@ + text.skip(i + spec.old@.len()),
                total: 1,
                notes: seq![],
            },
        ),
{
    lemma_replace_single(text, spec.old@, spec.new@, i);
    lemma_run_one(path, text, spec);
}

/// An edit of all occurrences replaces each of them, whatever it is replaced by: the
/// file is what stood between the occurrences, unchanged and in its order, with the new
/// text between each two pieces, and as many replacements are counted as there are
/// occurrences.
pub proof fn edits_of_all_exchange_each(
    path: Seq<char>,
    text: Seq<char>,
    spec: EditSpec,
    i: int,
) -> (ps: Seq<int>)
    requires
        spec.replace_all,
        spec.old@.len() > 0,
        0 <= i,
        i + spec.old@.len() <= text.len(),
        text.subrange(i, i + spec.old@.len()) == spec.old@,
    ensures
        successive(text, spec.old@, 0, ps),
        ps.len() > 0,
        run(path, text, seq![spec], 1) matches Ok(d) && {
            &&& text == join(left_over(text, spec.old@.len() as int, 0, ps), spec.old@)
            &&& d.text == join(left_over(text, spec.old@.len() as int, 0, ps), spec.new@)
            &&& d.text.len() == text.len() - ps.len() * spec.old@.len() + ps.len()
                * spec.new@.len()
            &&& d.total == ps.len()
            &&& d.notes.len() == 0
        },
{
    let ps = lemma_replace_joins(text, spec.old@, spec.new@, 0);
    assert(text.skip(0) =~= text);
    assert(at(text, spec.old@, i));
    lemma_successive(text, spec.old@, 0, ps, i);
    assert(begins_inside(ps, spec.old@.len() as int, i));
    assert(ps.len() * (spec.new@.len() - spec.old@.len()) == ps.len() * spec.new@.len() - ps.len()
        * spec.old@.len()) by (nonlinear_arith);
    lemma_run_one(path, text, spec);
    ps
}

/// An edit that does not say which occurrence it means is refused: its text stands at
/// two places that do not overlap, and not all of them are meant. So is an edit that
/// has no text to look for.
pub proof fn unclear_edits_are_refused(
    path: Seq<char>,
    text: Seq<char>,
    spec: EditSpec,
    i: int,
    j: int,
)
    requires
        spec.old@.len() == 0 || {
            &&& !spec.replace_all
            &&& 0 <= i && i + spec.old@.len() <= j && j + spec.old@.len() <= text.len()
            &&& text.subrange(i, i + spec.old@.len()) == spec.old@
            &&& text.subrange(j, j + spec.old@.len()) == spec.old@
        },
    ensures
        run(path, text, seq![spec], 1) is Err,
{
    if spec.old@.len() > 0 {
        lemma_count_two(text, spec.old@, i, j);
    }
    lemma_run_one(path, text, spec);
}

/// A batch of one edit is that edit.
proof fn lemma_run_one(path: Seq<char>, text: Seq<char>, spec: EditSpec)
    ensures
        run(path, text, seq![spec], 1) == step(
            path,
            Draft { text, total: 0, notes: seq![] },
            spec,
            seq![],
        ),
{
    assert(run(path, text, seq![spec], 0) == Ok::<Draft, Seq<char>>(
        Draft { text, total: 0, notes: seq![] },
    ));
    assert(seq![spec][0] == spec);
    assert(label(0, 1) =~= seq![]);
}

/// An edit whose text is not in the file as it is given is applied as it is repaired,
/// with a note: the repaired text is replaced where it stands. Where it cannot be
/// repaired it is refused.
pub proof fn repaired_edits_splice(path: Seq<char>, text: Seq<char>, spec: EditSpec, i: int)
    requires
        spec.old@.len() > 0,
        !contains(text, spec.old@),
        repair(text, spec.old@, spec.new@) matches Some(fix) ==> {
            &&& 0 <= i && i + fix.old.len() <= text.len()
            &&& text.subrange(i, i + fix.old.len()) == fix.old
            &&& forall|k: int|
                0 <= k && k + fix.old.len() <= text.len() && #[trigger] text.subrange(
                    k,
                    k + fix.old.len(),
                ) == fix.old ==> i <= k < i + fix.old.len()
        },
    ensures
        match repair(text, spec.old@, spec.new@) {
            Some(fix) => run(path, text, seq![spec], 1) == Ok::<Draft, Seq<char>>(
                Draft {
                    text: text.take(i) + fix.new + text.skip(i + fix.old.len()),
                    total: 1,
                    notes: seq![fix.note],
                },
            ),
            None => run(path, text, seq![spec], 1) is Err,
        },
{
    lemma_contains_count(text, spec.old@);
    repaired_edit_matches(text, spec.old@, spec.new@);
    lemma_run_one(path, text, spec);
    match repair(text, spec.old@, spec.new@) {
        Some(fix) => {
            lemma_replace_single(text, fix.old, fix.new, i);
            assert(Seq::<char>::empty() + fix.note =~= fix.note);
            assert(Seq::<Seq<char>>::empty().push(fix.note) =~= seq![fix.note]);
        },
        None => {},
    }
}

/// The replacements of a batch add up, and an edit that is refused refuses the batch with
/// its own message.
pub proof fn replacements_add_up(path: Seq<char>, original: Seq<char>, specs: Seq<EditSpec>, n: int)
    requires
        0 < n <= specs.len(),
    ensures
        run(path, original, specs, n) matches Ok(d) ==> (run(path, original, specs, n - 1) matches Ok(
            b,
        ) && d.total == b.total + count(b.text, (effective(b.text, specs[n - 1])->0).0, 0)
            && d.total > b.total && b.notes.is_prefix_of(d.notes)),
        run(path, original, specs, n - 1) is Err ==> run(path, original, specs, n) == run(
            path,
            original,
            specs,
            n - 1,
        ),
{
    match run(path, original, specs, n - 1) {
        Ok(b) => {
            if edited(b.text, specs[n - 1]) is Some {
                applied_edit_matched(b.text, specs[n - 1]);
                assert(b.notes.is_prefix_of(b.notes));
            }
        },
        Err(_) => {},
    }
}

/// Arguments name edits in one of two ways and never in both: as a list, or as one text and
/// what replaces it.
pub proof fn arguments_name_edits_once(old: bool, new: bool, edits: nat)
    ensures
        shape_error(old, new, edits) is None <==> (edits > 0 && !old && !new) || (edits == 0 && old
            && new),
{
}

/// A report says whether the file changed: where it did, how many edits and replacements
/// were made, and where it did not, that it is unchanged. The notes follow, a line each.
pub proof fn reports_tell_what_changed(path: Seq<char>, original: Seq<char>, d: Draft, n: nat)
    ensures
        d.text == original ==> edit_report(path, original, d, n) == "edited "@ + path + ": "@ + dec(
            d.total,
        ) + " replacement"@ + plural_suffix(d.total as int)
            + ", but the file content is unchanged (`new` matched `old`)\n"@ + concat(
            Seq::new(d.notes.len(), |i: int| "note: "@ + d.notes[i] + "\n"@),
        ),
        d.text != original ==> edit_report(path, original, d, n) == "edited "@ + path + ": "@ + dec(n)
            + " edit"@ + plural_suffix(n as int) + " applied, "@ + dec(d.total) + " replacement"@
            + plural_suffix(d.total as int) + "\n"@ + concat(
            Seq::new(d.notes.len(), |i: int| "note: "@ + d.notes[i] + "\n"@),
        ),
{
}

} // verus!
