//! What a session needs before it can start, and what is said where something is
//! missing.

use crate::text::chars_of;
use crate::words::{pad_right, padded_right};
use vstd::prelude::*;

verus! {

broadcast use vstd::string::group_string_axioms;

/// Something that keeps a session from starting.
#[derive(Debug, Clone, PartialEq, Eq)]
pub enum Gap {
    /// The project has no configuration.
    Project { root: String },
    /// A file is there but cannot be used.
    InvalidConfig { name: String, path: String, detail: String },
    /// No provider is configured.
    Provider,
    /// A provider is configured, but no model that can be used.
    Model { detail: String },
}

/// A [`Gap`] by what it holds.
pub enum GapText {
    Project { root: Seq<char> },
    InvalidConfig { name: Seq<char>, path: Seq<char>, detail: Seq<char> },
    Provider,
    Model { detail: Seq<char> },
}

impl View for Gap {
    type V = GapText;

    open spec fn view(&self) -> GapText {
        match self {
            Gap::Project { root } => GapText::Project { root: root@ },
            Gap::InvalidConfig { name, path, detail } => GapText::InvalidConfig {
                name: name@,
                path: path@,
                detail: detail@,
            },
            Gap::Provider => GapText::Provider,
            Gap::Model { detail } => GapText::Model { detail: detail@ },
        }
    }
}

impl Gap {
    /// What is wrong.
    pub open spec fn what(&self) -> Seq<char> {
        match self {
            Gap::Project { root } => "no .cowboy/ config in "@ + root@,
            Gap::InvalidConfig { name, detail, .. } => "invalid "@ + name@ + ": "@ + detail@,
            Gap::Provider => "no model provider configured"@,
            Gap::Model { detail } => detail@,
        }
    }

    /// What mends it.
    pub open spec fn fix(&self) -> Seq<char> {
        match self {
            Gap::Project { .. } => "cowboy init"@,
            Gap::InvalidConfig { path, .. } => "fix "@ + path@,
            Gap::Provider => "cowboy models setup"@,
            Gap::Model { .. } => "cowboy models add <model-id>"@,
        }
    }

    /// What is wrong, and what mends it.
    pub fn line(&self) -> (r: (String, String))
        ensures
            r.0@ == self.what(),
            r.1@ == self.fix(),
    {
        match self {
            Gap::Project { root } => {
                let mut w = "no .cowboy/ config in ".to_owned();
                w.push_str(root);
                (w, "cowboy init".to_owned())
            },
            Gap::InvalidConfig { name, path, detail } => {
                let mut w = "invalid ".to_owned();
                w.push_str(name);
                w.push_str(": ");
                w.push_str(detail);
                let mut f = "fix ".to_owned();
                f.push_str(path);
                (w, f)
            },
            Gap::Provider => (
                "no model provider configured".to_owned(),
                "cowboy models setup".to_owned(),
            ),
            Gap::Model { detail } => (detail.clone(), "cowboy models add <model-id>".to_owned()),
        }
    }
}

/// What came of loading a file.
#[derive(Debug)]
pub enum Loaded<T> {
    Absent,
    Value(T),
    Invalid(String),
}

/// The gap that a file leaves: one that is there but cannot be used, and no other.
pub open spec fn invalid_gap<T>(name: Seq<char>, path: Seq<char>, state: Loaded<T>, gap: Gap) -> bool {
    match (state, gap) {
        (Loaded::Invalid(why), Gap::InvalidConfig { name: n, path: p, detail }) => n@ == name && p@
            == path && detail == why,
        _ => false,
    }
}

/// Notes a file that is there but cannot be used, and gives what was loaded. A file
/// that is absent is no gap here.
pub fn record_config<T>(gaps: &mut Vec<Gap>, name: &str, path: &str, state: Loaded<T>) -> (r: Option<T>)
    ensures
        match state {
            Loaded::Value(v) => r == Some(v) && final(gaps)@ == old(gaps)@,
            Loaded::Absent => r is None && final(gaps)@ == old(gaps)@,
            Loaded::Invalid(_) => {
                &&& r is None
                &&& final(gaps)@.len() == old(gaps)@.len() + 1
                &&& final(gaps)@.drop_last() == old(gaps)@
                &&& invalid_gap(name@, path@, state, final(gaps)@.last())
            },
        },
{
    match state {
        Loaded::Value(v) => Some(v),
        Loaded::Absent => None,
        Loaded::Invalid(detail) => {
            gaps.push(
                Gap::InvalidConfig { name: name.to_owned(), path: path.to_owned(), detail },
            );
            assert(gaps@.drop_last() =~= old(gaps)@);
            None
        },
    }
}

/// What was found of everything that a start needs.
#[derive(Debug)]
pub struct Found {
    pub root: String,
    pub security_path: String,
    pub security: Loaded<()>,
    pub agent_path: String,
    pub agent: Loaded<()>,
    /// Where the providers are, and how many; `None` where there is no home.
    pub providers: Option<(String, Loaded<usize>)>,
    pub user_models: Option<(String, Loaded<()>)>,
    pub project_models_path: String,
    pub project_models: Loaded<()>,
    /// Why no model can be used, where there are providers and none can.
    pub model_error: Option<String>,
}

/// Gaps by what they hold.
pub open spec fn gap_texts(gs: Seq<Gap>) -> Seq<GapText> {
    Seq::new(gs.len(), |i: int| gs[i]@)
}

/// The gap that a file leaves, where it is there but cannot be used.
pub open spec fn invalid_gaps<T>(name: Seq<char>, path: Seq<char>, state: Loaded<T>) -> Seq<
    GapText,
> {
    match state {
        Loaded::Invalid(why) => seq![GapText::InvalidConfig { name, path, detail: why@ }],
        _ => seq![],
    }
}

/// Everything that keeps a session from starting, in the order in which it is mended:
/// each file on its own, a file that cannot be used never taken for one that is absent.
pub open spec fn all_gaps(f: Found) -> Seq<GapText> {
    let a = if f.security is Absent {
        seq![GapText::Project { root: f.root@ }]
    } else {
        invalid_gaps("security.yaml"@, f.security_path@, f.security)
    };
    let b = a + invalid_gaps("agent.yaml"@, f.agent_path@, f.agent);
    let c = b + match f.providers {
        Some((path, state)) => invalid_gaps("providers.yaml"@, path@, state),
        None => seq![
            GapText::InvalidConfig {
                name: "providers.yaml"@,
                path: "~/.config/cowboy/providers.yaml"@,
                detail: "cannot resolve the home config directory"@,
            },
        ],
    };
    let d = c + match f.user_models {
        Some((path, state)) => invalid_gaps("user models.yaml"@, path@, state),
        None => seq![],
    };
    let e = d + invalid_gaps("project models.yaml"@, f.project_models_path@, f.project_models);
    match f.providers {
        Some((_, Loaded::Value(n))) => if n == 0 {
            e + seq![GapText::Provider]
        } else {
            match f.model_error {
                Some(why) => e + seq![
                    GapText::Model {
                        detail: "a provider is configured, but no usable model ("@ + why@ + ")"@,
                    },
                ],
                None => e,
            }
        },
        _ => e,
    }
}

fn note<T>(gaps: &mut Vec<Gap>, name: &str, path: &str, state: Loaded<T>) -> (r: Option<T>)
    ensures
        gap_texts(final(gaps)@) == gap_texts(old(gaps)@) + invalid_gaps(name@, path@, state),
        r == match state {
            Loaded::Value(v) => Some(v),
            _ => None,
        },
{
    let ghost before = gaps@;
    let ghost found = state;
    let r = record_config(gaps, name, path, state);
    proof {
        if found is Invalid {
            assert(gaps@ =~= before.push(gaps@.last()));
        }
        assert(gap_texts(gaps@) =~= gap_texts(before) + invalid_gaps(name@, path@, found));
    }
    r
}

/// Everything that keeps a session from starting.
pub fn check(f: Found) -> (r: Vec<Gap>)
    ensures
        gap_texts(r@) == all_gaps(f),
{
    let mut gaps: Vec<Gap> = Vec::new();
    let ghost start = f;
    assert(gap_texts(gaps@) =~= seq![]);
    match f.security {
        Loaded::Absent => {
            gaps.push(Gap::Project { root: f.root });
            assert(gap_texts(gaps@) =~= seq![GapText::Project { root: start.root@ }]);
        },
        state => {
            note(&mut gaps, "security.yaml", &f.security_path, state);
            assert(gap_texts(gaps@) =~= invalid_gaps(
                "security.yaml"@,
                start.security_path@,
                start.security,
            ));
        },
    }
    note(&mut gaps, "agent.yaml", &f.agent_path, f.agent);
    let providers: Option<usize> = match f.providers {
        Some((path, state)) => note(&mut gaps, "providers.yaml", &path, state),
        None => {
            let ghost before = gap_texts(gaps@);
            gaps.push(
                Gap::InvalidConfig {
                    name: "providers.yaml".to_owned(),
                    path: "~/.config/cowboy/providers.yaml".to_owned(),
                    detail: "cannot resolve the home config directory".to_owned(),
                },
            );
            assert(gap_texts(gaps@) =~= before + seq![gaps@.last()@]);
            None
        },
    };
    match f.user_models {
        Some((path, state)) => {
            note(&mut gaps, "user models.yaml", &path, state);
        },
        None => {
            assert(gap_texts(gaps@) + seq![] =~= gap_texts(gaps@));
        },
    }
    note(&mut gaps, "project models.yaml", &f.project_models_path, f.project_models);
    match providers {
        Some(n) => {
            let ghost before = gap_texts(gaps@);
            if n == 0 {
                gaps.push(Gap::Provider);
                assert(gap_texts(gaps@) =~= before + seq![GapText::Provider]);
            } else {
                match f.model_error {
                    Some(why) => {
                        let mut detail = "a provider is configured, but no usable model (".to_owned();
                        detail.push_str(&why);
                        detail.push_str(")");
                        let ghost d = detail@;
                        gaps.push(Gap::Model { detail });
                        assert(gap_texts(gaps@) =~= before + seq![GapText::Model { detail: d }]);
                    },
                    None => {},
                }
            }
        },
        None => {},
    }
    gaps
}

/// Whether to offer to set the project up here and now: where that is all that is
/// missing, in a repository, with someone there to answer.
pub fn offers_init(gaps: &Vec<Gap>, interactive: bool, has_git: bool) -> (r: bool)
    ensures
        r == (gaps@.len() == 1 && gaps@[0] is Project && interactive && has_git),
{
    let only_project = gaps.len() == 1 && match &gaps[0] {
        Gap::Project { .. } => true,
        _ => false,
    };
    only_project && interactive && has_git
}

// ---------------------------------------------------------------------------
// The report
// ---------------------------------------------------------------------------

/// What is put around a text to set it off.
#[derive(Debug)]
pub struct Mark {
    pub before: String,
    pub after: String,
}

impl Mark {
    /// A text set off.
    pub open spec fn on(&self, s: Seq<char>) -> Seq<char> {
        self.before@ + s + self.after@
    }

    /// A text set off.
    pub fn set(&self, s: &str) -> (r: String)
        ensures
            r@ == self.on(s@),
    {
        let mut out = self.before.clone();
        out.push_str(s);
        out.push_str(&self.after);
        out
    }
}

/// How errors, what matters, and what matters less are set off.
#[derive(Debug)]
pub struct Palette {
    pub error: Mark,
    pub bold: Mark,
    pub dim: Mark,
}

impl Palette {
    /// Nothing is set off.
    pub open spec fn is_plain(&self) -> bool {
        &&& self.error.before@.len() == 0 && self.error.after@.len() == 0
        &&& self.bold.before@.len() == 0 && self.bold.after@.len() == 0
        &&& self.dim.before@.len() == 0 && self.dim.after@.len() == 0
    }

    /// Nothing is set off.
    pub fn plain() -> (r: Palette)
        ensures
            r.is_plain(),
    {
        Palette {
            error: Mark { before: String::new(), after: String::new() },
            bold: Mark { before: String::new(), after: String::new() },
            dim: Mark { before: String::new(), after: String::new() },
        }
    }
}

/// The greatest length of what is wrong, of the first `n`.
pub open spec fn widest(gs: Seq<Gap>, n: int) -> int
    decreases n,
{
    if n <= 0 {
        0
    } else if gs[n - 1].what().len() > widest(gs, n - 1) {
        gs[n - 1].what().len() as int
    } else {
        widest(gs, n - 1)
    }
}

/// The line on one gap.
pub open spec fn gap_line(p: Palette, g: Gap, width: int) -> Seq<char> {
    "  "@ + p.error.on("✗"@) + " "@ + pad_right(g.what(), width) + "  →  "@ + p.bold.on(g.fix())
        + "\n"@
}

/// The lines on the first `n` gaps.
pub open spec fn gap_lines(p: Palette, gs: Seq<Gap>, width: int, n: int) -> Seq<char>
    decreases n,
{
    if n <= 0 {
        seq![]
    } else {
        gap_lines(p, gs, width, n - 1) + gap_line(p, gs[n - 1], width)
    }
}

/// What is shown where a session cannot start: every gap with what mends it, and that
/// the order matters where there are several.
pub open spec fn report_text(p: Palette, root: Seq<char>, gs: Seq<Gap>) -> Seq<char> {
    let n = gs.len() as int;
    let a = p.error.on("cowboy can't start in"@) + " "@ + p.bold.on(root) + "\n"@ + gap_lines(
        p,
        gs,
        widest(gs, n),
        n,
    );
    if n > 1 {
        a + "\n"@ + p.dim.on("run them in that order, then `cowboy` again"@) + "\n"@
    } else {
        a
    }
}

/// What is shown where a session cannot start.
pub fn report_with(p: &Palette, root: &str, gaps: &Vec<Gap>) -> (r: String)
    ensures
        r@ == report_text(*p, root@, gaps@),
{
    let mut width: usize = 0;
    let mut i: usize = 0;
    while i < gaps.len()
        invariant
            i <= gaps@.len(),
            width == widest(gaps@, i as int),
        decreases gaps.len() - i,
    {
        let (what, _) = gaps[i].line();
        let n = chars_of(&what).len();
        if n > width {
            width = n;
        }
        i = i + 1;
    }
    let mut out = p.error.set("cowboy can't start in");
    out.push_str(" ");
    out.push_str(&p.bold.set(root));
    out.push_str("\n");
    let ghost head = out@;
    let mut k: usize = 0;
    assert(head + seq![] =~= head);
    while k < gaps.len()
        invariant
            k <= gaps@.len(),
            out@ == head + gap_lines(*p, gaps@, width as int, k as int),
        decreases gaps.len() - k,
    {
        let (what, fix) = gaps[k].line();
        let mut line = "  ".to_owned();
        line.push_str(&p.error.set("✗"));
        line.push_str(" ");
        line.push_str(&padded_right(&what, width));
        line.push_str("  →  ");
        line.push_str(&p.bold.set(&fix));
        line.push_str("\n");
        proof {
            let b = gap_lines(*p, gaps@, width as int, k as int);
            assert(head + b + line@ =~= head + (b + line@));
        }
        out.push_str(&line);
        k = k + 1;
    }
    if gaps.len() > 1 {
        out.push_str("\n");
        out.push_str(&p.dim.set("run them in that order, then `cowboy` again"));
        out.push_str("\n");
    }
    out
}

/// What is shown where a session cannot start, with nothing set off.
pub fn report(root: &str, gaps: &Vec<Gap>) -> (r: String)
    ensures
        exists|p: Palette| p.is_plain() && r@ == #[trigger] report_text(p, root@, gaps@),
{
    let p = Palette::plain();
    report_with(&p, root, gaps)
}

/// A `security.yaml` that is there but cannot be used is the first gap, once, with its path
/// and what is wrong with it, and the project is not said to have no configuration.
pub proof fn invalid_is_never_absent(f: Found)
    requires
        f.security is Invalid,
    ensures
        all_gaps(f).len() > 0,
        all_gaps(f)[0] == (GapText::InvalidConfig {
            name: "security.yaml"@,
            path: f.security_path@,
            detail: f.security->Invalid_0@,
        }),
        forall|i: int| 0 <= i < all_gaps(f).len() ==> !(#[trigger] all_gaps(f)[i] is Project),
        forall|i: int|
            0 < i < all_gaps(f).len() && #[trigger] all_gaps(f)[i] is InvalidConfig
                ==> all_gaps(f)[i]->name != "security.yaml"@,
{
    reveal_strlit("security.yaml");
    reveal_strlit("agent.yaml");
    reveal_strlit("providers.yaml");
    reveal_strlit("user models.yaml");
    reveal_strlit("project models.yaml");
    assert("security.yaml"@.len() == 13);
    assert("agent.yaml"@.len() == 10);
    assert("providers.yaml"@.len() == 14);
    assert("user models.yaml"@.len() == 16);
    assert("project models.yaml"@.len() == 19);
}

/// Nothing is in the way of a start exactly where the project is set up, no file that is
/// there is unusable, there is a provider, and a model of one can be used.
pub proof fn starts_need_everything(f: Found)
    ensures
        all_gaps(f).len() == 0 <==> {
            &&& f.security is Value
            &&& !(f.agent is Invalid)
            &&& f.user_models matches Some((_, state)) ==> !(state is Invalid)
            &&& !(f.project_models is Invalid)
            &&& f.providers matches Some((_, state)) && (state is Absent || (
            state matches Loaded::Value(n) && n > 0 && f.model_error is None))
        },
{
}

/// The project is said to be missing, before all else, exactly where its security
/// configuration is; that there is no provider, or no usable model, is said last, exactly
/// where that is so.
pub proof fn gaps_are_named(f: Found)
    ensures
        ({
            let gs = all_gaps(f);
            let count = match f.providers {
                Some((_, Loaded::Value(n))) => n as int,
                _ => -1,
            };
            &&& f.security is Absent <==> gs.len() > 0 && gs[0] == (GapText::Project {
                root: f.root@,
            })
            &&& count == 0 <==> gs.len() > 0 && gs.last() is Provider
            &&& count > 0 && f.model_error is Some <==> gs.len() > 0 && gs.last() is Model
            &&& count > 0 && f.model_error is Some ==> gs.last() == (GapText::Model {
                detail: "a provider is configured, but no usable model ("@ + (f.model_error->0)@
                    + ")"@,
            })
        }),
{
}

/// The report is as wide as its widest gap.
pub proof fn reports_fit_the_widest(gs: Seq<Gap>, n: int)
    requires
        0 <= n <= gs.len(),
    ensures
        forall|i: int| 0 <= i < n ==> (#[trigger] gs[i]).what().len() <= widest(gs, n),
        widest(gs, n) > 0 ==> exists|i: int|
            0 <= i < n && (#[trigger] gs[i]).what().len() == widest(gs, n),
    decreases n,
{
    if n > 0 {
        reports_fit_the_widest(gs, n - 1);
        assert(gs[n - 1] == gs[n - 1]);
        if widest(gs, n) > 0 && widest(gs, n) == widest(gs, n - 1) {
            let i = choose|i: int|
                0 <= i < n - 1 && (#[trigger] gs[i]).what().len() == widest(gs, n - 1);
            assert(gs[i].what().len() == widest(gs, n));
        }
    }
}

} // verus!
