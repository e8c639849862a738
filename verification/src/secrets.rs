//! Credentials of the host that a user grants to the sandbox.

use crate::approvals::{opt_text, RuleSet};
use crate::paths::{file_name, last_name};
use crate::search::{at, find, lemma_find, split_once};
use crate::text::{pair_texts, push_pair, push_text, same, strs};
use crate::words::{join, joined, quote, quoted};
use vstd::prelude::*;

verus! {

broadcast use vstd::string::group_string_axioms;

// ---------------------------------------------------------------------------
// Presets
// ---------------------------------------------------------------------------

/// What a known tool needs: files, variables from commands of the host, and places on the
/// network.
pub struct PresetText {
    pub files: Seq<(Seq<char>, Seq<char>)>,
    pub env_cmd: Seq<(Seq<char>, Seq<char>)>,
    pub domains: Seq<Seq<char>>,
    pub note: Seq<char>,
}

/// The names of the presets.
pub open spec fn preset_names() -> Seq<Seq<char>> {
    seq!["gh"@, "gcloud"@, "kubectl"@, "aws"@, "git"@, "ssh"@]
}

/// What a preset holds.
pub open spec fn preset_of(name: Seq<char>) -> Option<PresetText> {
    if name == "gh"@ {
        Some(
            PresetText {
                files: seq![("~/.config/gh"@, "/tmp/.config/gh"@)],
                env_cmd: seq![("GH_TOKEN"@, "gh auth token"@)],
                domains: seq!["api.github.com"@, "github.com"@],
                note: "your GitHub CLI auth (config read-only + GH_TOKEN from the keyring)."@,
            },
        )
    } else if name == "gcloud"@ {
        Some(
            PresetText {
                files: seq![("~/.config/gcloud"@, "/tmp/.config/gcloud"@)],
                env_cmd: seq![],
                domains: seq![
                    "accounts.google.com"@,
                    "oauth2.googleapis.com"@,
                    "*.googleapis.com"@,
                ],
                note: "your gcloud config + application-default credentials (read-only). Token refresh needs write access — set read_only: false if it fails."@,
            },
        )
    } else if name == "kubectl"@ {
        Some(
            PresetText {
                files: seq![("~/.kube"@, "/tmp/.kube"@)],
                env_cmd: seq![],
                domains: seq![],
                note: "your kubeconfig (read-only). Also allow your cluster's API server host."@,
            },
        )
    } else if name == "aws"@ {
        Some(
            PresetText {
                files: seq![("~/.aws"@, "/tmp/.aws"@)],
                env_cmd: seq![],
                domains: seq!["*.amazonaws.com"@],
                note: "your AWS credentials/config (read-only)."@,
            },
        )
    } else if name == "git"@ {
        Some(
            PresetText {
                files: seq![
                    ("~/.gitconfig"@, "/tmp/.gitconfig"@),
                    ("~/.git-credentials"@, "/tmp/.git-credentials"@),
                ],
                env_cmd: seq![],
                domains: seq!["github.com"@],
                note: "your git config + stored credentials (read-only)."@,
            },
        )
    } else if name == "ssh"@ {
        Some(
            PresetText {
                files: seq![("~/.ssh"@, "/tmp/.ssh"@)],
                env_cmd: seq![],
                domains: seq![],
                note: "WARNING: exposes your SSH PRIVATE KEYS to the agent (read-only)."@,
            },
        )
    } else {
        None
    }
}

/// What a known tool needs: files, variables from commands of the host, and places on the
/// network.
#[derive(Debug)]
pub struct Preset {
    pub files: Vec<(String, String)>,
    pub env_cmd: Vec<(String, String)>,
    pub domains: Vec<String>,
    pub note: String,
}

impl Preset {
    /// The preset as texts.
    pub open spec fn texts(&self) -> PresetText {
        PresetText {
            files: pair_texts(self.files@),
            env_cmd: pair_texts(self.env_cmd@),
            domains: strs(self.domains@),
            note: self.note@,
        }
    }

    fn with_note(note: &str) -> (r: Preset)
        ensures
            r.texts() == (PresetText {
                files: seq![],
                env_cmd: seq![],
                domains: seq![],
                note: note@,
            }),
    {
        let r = Preset {
            files: Vec::new(),
            env_cmd: Vec::new(),
            domains: Vec::new(),
            note: note.to_owned(),
        };
        assert(r.texts().files =~= seq![]);
        assert(r.texts().env_cmd =~= seq![]);
        assert(r.texts().domains =~= seq![]);
        r
    }

    fn with_file(self, source: &str, target: &str) -> (r: Preset)
        ensures
            r.texts() == (PresetText {
                files: self.texts().files.push((source@, target@)),
                ..self.texts()
            }),
    {
        let mut files = self.files;
        push_pair(&mut files, source, target.to_owned());
        Preset { files, env_cmd: self.env_cmd, domains: self.domains, note: self.note }
    }

    fn with_command(self, name: &str, command: &str) -> (r: Preset)
        ensures
            r.texts() == (PresetText {
                env_cmd: self.texts().env_cmd.push((name@, command@)),
                ..self.texts()
            }),
    {
        let mut env_cmd = self.env_cmd;
        push_pair(&mut env_cmd, name, command.to_owned());
        Preset { files: self.files, env_cmd, domains: self.domains, note: self.note }
    }

    fn with_domain(self, domain: &str) -> (r: Preset)
        ensures
            r.texts() == (PresetText {
                domains: self.texts().domains.push(domain@),
                ..self.texts()
            }),
    {
        let mut domains = self.domains;
        push_text(&mut domains, domain.to_owned());
        Preset { files: self.files, env_cmd: self.env_cmd, domains, note: self.note }
    }
}

/// What a preset holds.
pub fn preset(name: &str) -> (r: Option<Preset>)
    ensures
        match r {
            Some(p) => preset_of(name@) == Some(p.texts()),
            None => preset_of(name@) is None,
        },
{
    let r = if same(name, "gh") {
        Some(
            Preset::with_note(
                "your GitHub CLI auth (config read-only + GH_TOKEN from the keyring).",
            ).with_file("~/.config/gh", "/tmp/.config/gh").with_command(
                "GH_TOKEN",
                "gh auth token",
            ).with_domain("api.github.com").with_domain("github.com"),
        )
    } else if same(name, "gcloud") {
        Some(
            Preset::with_note(
                "your gcloud config + application-default credentials (read-only). Token refresh needs write access — set read_only: false if it fails.",
            ).with_file("~/.config/gcloud", "/tmp/.config/gcloud").with_domain(
                "accounts.google.com",
            ).with_domain("oauth2.googleapis.com").with_domain("*.googleapis.com"),
        )
    } else if same(name, "kubectl") {
        Some(
            Preset::with_note(
                "your kubeconfig (read-only). Also allow your cluster's API server host.",
            ).with_file("~/.kube", "/tmp/.kube"),
        )
    } else if same(name, "aws") {
        Some(
            Preset::with_note("your AWS credentials/config (read-only).").with_file(
                "~/.aws",
                "/tmp/.aws",
            ).with_domain("*.amazonaws.com"),
        )
    } else if same(name, "git") {
        Some(
            Preset::with_note("your git config + stored credentials (read-only).").with_file(
                "~/.gitconfig",
                "/tmp/.gitconfig",
            ).with_file("~/.git-credentials", "/tmp/.git-credentials").with_domain("github.com"),
        )
    } else if same(name, "ssh") {
        Some(
            Preset::with_note(
                "WARNING: exposes your SSH PRIVATE KEYS to the agent (read-only).",
            ).with_file("~/.ssh", "/tmp/.ssh"),
        )
    } else {
        None
    };
    proof {
        if r is Some {
            let want = preset_of(name@)->0;
            let got = (r->0).texts();
            assert(got.files =~= want.files);
            assert(got.env_cmd =~= want.env_cmd);
            assert(got.domains =~= want.domains);
        }
    }
    r
}

fn presets() -> (r: Vec<String>)
    ensures
        strs(r@) == preset_names(),
{
    let mut v: Vec<String> = Vec::new();
    push_text(&mut v, "gh".to_owned());
    push_text(&mut v, "gcloud".to_owned());
    push_text(&mut v, "kubectl".to_owned());
    push_text(&mut v, "aws".to_owned());
    push_text(&mut v, "git".to_owned());
    push_text(&mut v, "ssh".to_owned());
    assert(strs(v@) =~= preset_names());
    v
}

// ---------------------------------------------------------------------------
// What is asked for
// ---------------------------------------------------------------------------

/// What a user asks to be granted.
#[derive(Debug)]
pub struct SecretsAddArgs {
    pub preset: Option<String>,
    pub env: Vec<String>,
    pub file: Vec<String>,
}

/// The grants asked for: variables of the host under their names, variables from
/// commands, files with where they go, places on the network, and what is said of them.
#[derive(Debug)]
pub struct Collected {
    pub env: Vec<(String, String)>,
    pub env_cmd: Vec<(String, String)>,
    pub files: Vec<(String, String)>,
    pub domains: Vec<String>,
    pub notes: Vec<String>,
}

/// The grants asked for, as texts.
pub struct CollectedText {
    pub env: Seq<(Seq<char>, Seq<char>)>,
    pub env_cmd: Seq<(Seq<char>, Seq<char>)>,
    pub files: Seq<(Seq<char>, Seq<char>)>,
    pub domains: Seq<Seq<char>>,
    pub notes: Seq<Seq<char>>,
}

impl Collected {
    /// The grants asked for, as texts.
    pub open spec fn texts(&self) -> CollectedText {
        CollectedText {
            env: pair_texts(self.env@),
            env_cmd: pair_texts(self.env_cmd@),
            files: pair_texts(self.files@),
            domains: strs(self.domains@),
            notes: strs(self.notes@),
        }
    }
}

/// A file and where it goes: as said after the first colon, or else under its own name.
pub open spec fn file_grant(f: Seq<char>) -> (Seq<char>, Seq<char>) {
    match find(f, seq![':'], 0) {
        Some(i) => (f.take(i), f.skip(i + 1)),
        None => (
            f,
            "/tmp/"@ + match last_name(f) {
                Some(n) => n,
                None => "cred"@,
            },
        ),
    }
}

/// A variable and where its value comes from: as said after the first `=`, or else the
/// variable of the same name.
pub open spec fn env_grant(e: Seq<char>) -> (Seq<char>, Seq<char>) {
    match find(e, seq!['='], 0) {
        Some(i) => (e.take(i), e.skip(i + 1)),
        None => (e, e),
    }
}

/// What a preset, where one is named, adds.
pub open spec fn preset_part(a: SecretsAddArgs) -> PresetText {
    match a.preset {
        Some(name) => preset_of(name@)->0,
        None => PresetText { files: seq![], env_cmd: seq![], domains: seq![], note: seq![] },
    }
}

/// The grants asked for.
pub open spec fn asked(a: SecretsAddArgs) -> CollectedText {
    let p = preset_part(a);
    CollectedText {
        env: strs(a.env@).map_values(|e: Seq<char>| env_grant(e)),
        env_cmd: p.env_cmd,
        files: p.files + strs(a.file@).map_values(|f: Seq<char>| file_grant(f)),
        domains: p.domains,
        notes: match a.preset {
            Some(name) => seq![name@ + ": "@ + p.note],
            None => seq![],
        },
    }
}

/// Why nothing is granted.
pub open spec fn collect_error(a: SecretsAddArgs) -> Option<Seq<char>> {
    if a.preset is Some && preset_of((a.preset->0)@) is None {
        Some(
            "unknown preset "@ + quoted((a.preset->0)@) + "; try: "@ + join(
                preset_names(),
                ", "@,
            ),
        )
    } else if asked(a).env.len() == 0 && asked(a).env_cmd.len() == 0 && asked(a).files.len() == 0 {
        Some(
            "nothing to add; give a preset ("@ + join(preset_names(), ", "@)
                + ") or --env/--file"@,
        )
    } else {
        None
    }
}

/// The grants asked for.
pub fn collect(a: &SecretsAddArgs) -> (r: Result<Collected, String>)
    ensures
        match r {
            Ok(c) => collect_error(*a) is None && c.texts() == asked(*a),
            Err(why) => collect_error(*a) == Some(why@),
        },
{
    let mut files: Vec<(String, String)> = Vec::new();
    let mut env_cmd: Vec<(String, String)> = Vec::new();
    let mut domains: Vec<String> = Vec::new();
    let mut notes: Vec<String> = Vec::new();
    assert(pair_texts(files@) =~= seq![]);
    assert(pair_texts(env_cmd@) =~= seq![]);
    assert(strs(domains@) =~= seq![]);
    assert(strs(notes@) =~= seq![]);
    match &a.preset {
        Some(name) => match preset(name) {
            None => {
                let mut why = "unknown preset ".to_owned();
                why.push_str(&quote(name));
                why.push_str("; try: ");
                why.push_str(&joined(&presets(), ", "));
                return Err(why);
            },
            Some(p) => {
                let mut note = name.clone();
                note.push_str(": ");
                note.push_str(&p.note);
                push_text(&mut notes, note);
                files = p.files;
                env_cmd = p.env_cmd;
                domains = p.domains;
            },
        },
        None => {},
    }
    let ghost p = preset_part(*a);
    proof {
        reveal_strlit(":");
        reveal_strlit("=");
        assert(":"@ =~= seq![':']);
        assert("="@ =~= seq!['=']);
    }
    let ghost fs = strs(a.file@).map_values(|f: Seq<char>| file_grant(f));
    let mut i: usize = 0;
    assert(pair_texts(files@) =~= p.files + fs.take(0));
    while i < a.file.len()
        invariant
            i <= a.file@.len(),
            ":"@ == seq![':'],
            fs == strs(a.file@).map_values(|f: Seq<char>| file_grant(f)),
            pair_texts(files@) == p.files + fs.take(i as int),
        decreases a.file.len() - i,
    {
        let f = &a.file[i];
        let (source, target) = match split_once(f, ":") {
            Some((s, t)) => (s, t),
            None => {
                let base = match file_name(f) {
                    Some(n) => n,
                    None => "cred".to_owned(),
                };
                let mut target = "/tmp/".to_owned();
                target.push_str(&base);
                (f.clone(), target)
            },
        };
        assert(strs(a.file@)[i as int] == f@);
        assert(fs[i as int] == file_grant(f@));
        assert((source@, target@) == fs[i as int]);
        push_pair(&mut files, &source, target);
        assert(pair_texts(files@) =~= p.files + fs.take(i + 1));
        i = i + 1;
    }
    assert(fs.take(fs.len() as int) =~= fs);
    let ghost es = strs(a.env@).map_values(|e: Seq<char>| env_grant(e));
    let mut env: Vec<(String, String)> = Vec::new();
    let mut k: usize = 0;
    assert(pair_texts(env@) =~= es.take(0));
    while k < a.env.len()
        invariant
            k <= a.env@.len(),
            "="@ == seq!['='],
            es == strs(a.env@).map_values(|e: Seq<char>| env_grant(e)),
            pair_texts(env@) == es.take(k as int),
        decreases a.env.len() - k,
    {
        let e = &a.env[k];
        let (name, source) = match split_once(e, "=") {
            Some((n, s)) => (n, s),
            None => (e.clone(), e.clone()),
        };
        assert(strs(a.env@)[k as int] == e@);
        assert((name@, source@) == es[k as int]);
        push_pair(&mut env, &name, source);
        assert(pair_texts(env@) =~= es.take(k + 1));
        k = k + 1;
    }
    assert(es.take(es.len() as int) =~= es);
    assert(pair_texts(env@).len() == env@.len());
    assert(pair_texts(env_cmd@).len() == env_cmd@.len());
    assert(pair_texts(files@).len() == files@.len());
    if env.len() == 0 && env_cmd.len() == 0 && files.len() == 0 {
        let mut why = "nothing to add; give a preset (".to_owned();
        why.push_str(&joined(&presets(), ", "));
        why.push_str(") or --env/--file");
        return Err(why);
    }
    let c = Collected { env, env_cmd, files, domains, notes };
    assert(c.texts().notes =~= asked(*a).notes);
    Ok(c)
}

// ---------------------------------------------------------------------------
// The user's grants
// ---------------------------------------------------------------------------

/// A variable that is granted.
#[derive(Debug)]
pub struct EnvGrant {
    pub name: String,
    pub source_env: String,
    pub source_command: Option<String>,
    pub required: bool,
    /// `required` where the user is to be asked before it is handed on.
    pub approval: Option<String>,
}

/// A file that is granted.
#[derive(Debug)]
pub struct FileGrant {
    pub source: String,
    pub target: String,
    pub read_only: bool,
    pub required: bool,
    /// `required` where the user is to be asked before it is handed on.
    pub approval: Option<String>,
}

/// The user's grants, and what they need to reach.
#[derive(Debug)]
pub struct UserSecrets {
    pub env: Vec<EnvGrant>,
    pub files: Vec<FileGrant>,
    pub allow: RuleSet,
}

/// A grant says that the user is to be asked.
pub open spec fn asks_first(approval: Option<Seq<char>>) -> bool {
    approval == Some("required"@)
}

fn is_asking(approval: &Option<String>) -> (r: bool)
    ensures
        r == asks_first(opt_text(*approval)),
{
    match approval {
        Some(a) => same(a, "required"),
        None => false,
    }
}

impl EnvGrant {
    /// Whether the user is to be asked before it is handed on.
    pub fn needs_approval(&self) -> (r: bool)
        ensures
            r == asks_first(opt_text(self.approval)),
    {
        is_asking(&self.approval)
    }
}

impl FileGrant {
    /// Whether the user is to be asked before it is handed on.
    pub fn needs_approval(&self) -> (r: bool)
        ensures
            r == asks_first(opt_text(self.approval)),
    {
        is_asking(&self.approval)
    }
}

/// Whether the host has what a variable is granted from: its command gives a value, where
/// it has one, or else the host's variable is set.
pub fn env_present(e: &EnvGrant, variable: bool, command: bool) -> (r: bool)
    ensures
        r == if e.source_command is Some {
            command
        } else {
            variable
        },
{
    if e.source_command.is_some() {
        command
    } else {
        variable
    }
}

/// A variable that is granted, as texts.
pub struct EnvText {
    pub name: Seq<char>,
    pub source_env: Seq<char>,
    pub source_command: Option<Seq<char>>,
    pub required: bool,
    pub approval: Option<Seq<char>>,
}

/// A file that is granted, as texts.
pub struct FileText {
    pub source: Seq<char>,
    pub target: Seq<char>,
    pub read_only: bool,
    pub required: bool,
    pub approval: Option<Seq<char>>,
}

/// Variables that are granted, as texts.
pub open spec fn env_texts(v: Seq<EnvGrant>) -> Seq<EnvText> {
    Seq::new(
        v.len(),
        |i: int| EnvText {
            name: v[i].name@,
            source_env: v[i].source_env@,
            source_command: opt_text(v[i].source_command),
            required: v[i].required,
            approval: opt_text(v[i].approval),
        },
    )
}

/// Files that are granted, as texts.
pub open spec fn file_texts(v: Seq<FileGrant>) -> Seq<FileText> {
    Seq::new(
        v.len(),
        |i: int| FileText {
            source: v[i].source@,
            target: v[i].target@,
            read_only: v[i].read_only,
            required: v[i].required,
            approval: opt_text(v[i].approval),
        },
    )
}

/// A variable of this name is granted.
pub open spec fn has_env(es: Seq<EnvText>, name: Seq<char>) -> bool {
    exists|i: int| 0 <= i < es.len() && (#[trigger] es[i]).name == name
}

/// This file is granted there.
pub open spec fn has_file(fs: Seq<FileText>, source: Seq<char>, target: Seq<char>) -> bool {
    exists|i: int|
        0 <= i < fs.len() && (#[trigger] fs[i]).source == source && fs[i].target == target
}

/// The variables with the first `n` of others, unless one of its name is granted.
pub open spec fn with_envs(
    es: Seq<EnvText>,
    more: Seq<(Seq<char>, Seq<char>)>,
    by_command: bool,
    n: int,
) -> Seq<EnvText>
    decreases n,
{
    if n <= 0 {
        es
    } else {
        let b = with_envs(es, more, by_command, n - 1);
        let (name, source) = more[n - 1];
        if has_env(b, name) {
            b
        } else if by_command {
            b.push(
                EnvText {
                    name,
                    source_env: seq![],
                    source_command: Some(source),
                    required: false,
                    approval: None,
                },
            )
        } else {
            b.push(
                EnvText {
                    name,
                    source_env: source,
                    source_command: None,
                    required: false,
                    approval: None,
                },
            )
        }
    }
}

/// The files with the first `n` of others, to be read and not written, unless granted
/// there already.
pub open spec fn with_files(fs: Seq<FileText>, more: Seq<(Seq<char>, Seq<char>)>, n: int) -> Seq<
    FileText,
>
    decreases n,
{
    if n <= 0 {
        fs
    } else {
        let b = with_files(fs, more, n - 1);
        let (source, target) = more[n - 1];
        if has_file(b, source, target) {
            b
        } else {
            b.push(FileText { source, target, read_only: true, required: false, approval: None })
        }
    }
}

/// The texts with the first `n` of others, each once.
pub open spec fn with_texts(ts: Seq<Seq<char>>, more: Seq<Seq<char>>, n: int) -> Seq<Seq<char>>
    decreases n,
{
    if n <= 0 {
        ts
    } else {
        let b = with_texts(ts, more, n - 1);
        if b.contains(more[n - 1]) {
            b
        } else {
            b.push(more[n - 1])
        }
    }
}

fn env_is_granted(v: &Vec<EnvGrant>, name: &str) -> (r: bool)
    ensures
        r == has_env(env_texts(v@), name@),
{
    let ghost es = env_texts(v@);
    let mut i: usize = 0;
    while i < v.len()
        invariant
            i <= v@.len(),
            es == env_texts(v@),
            forall|k: int| 0 <= k < i ==> (#[trigger] es[k]).name != name@,
        decreases v.len() - i,
    {
        if same(&v[i].name, name) {
            assert(es[i as int].name == name@);
            return true;
        }
        assert(es[i as int].name != name@);
        i = i + 1;
    }
    false
}

fn file_is_granted(v: &Vec<FileGrant>, source: &str, target: &str) -> (r: bool)
    ensures
        r == has_file(file_texts(v@), source@, target@),
{
    let ghost fs = file_texts(v@);
    let mut i: usize = 0;
    while i < v.len()
        invariant
            i <= v@.len(),
            fs == file_texts(v@),
            forall|k: int|
                0 <= k < i ==> !((#[trigger] fs[k]).source == source@ && fs[k].target == target@),
        decreases v.len() - i,
    {
        if same(&v[i].source, source) && same(&v[i].target, target) {
            assert(fs[i as int].source == source@);
            return true;
        }
        assert(!(fs[i as int].source == source@ && fs[i as int].target == target@));
        i = i + 1;
    }
    false
}

fn add_envs(v: &mut Vec<EnvGrant>, more: &Vec<(String, String)>, by_command: bool)
    ensures
        env_texts(final(v)@) == with_envs(
            env_texts(old(v)@),
            pair_texts(more@),
            by_command,
            more@.len() as int,
        ),
{
    let ghost start = env_texts(v@);
    let ghost ms = pair_texts(more@);
    let mut i: usize = 0;
    while i < more.len()
        invariant
            i <= more@.len(),
            ms == pair_texts(more@),
            env_texts(v@) == with_envs(start, ms, by_command, i as int),
        decreases more.len() - i,
    {
        let name = &more[i].0;
        let source = &more[i].1;
        assert(ms[i as int] == (name@, source@));
        let there = env_is_granted(v, name);
        if !there {
            let ghost before = env_texts(v@);
            let grant = if by_command {
                EnvGrant {
                    name: name.clone(),
                    source_env: String::new(),
                    source_command: Some(source.clone()),
                    required: false,
                    approval: None,
                }
            } else {
                EnvGrant {
                    name: name.clone(),
                    source_env: source.clone(),
                    source_command: None,
                    required: false,
                    approval: None,
                }
            };
            let ghost want = if by_command {
                EnvText {
                    name: name@,
                    source_env: seq![],
                    source_command: Some(source@),
                    required: false,
                    approval: None,
                }
            } else {
                EnvText {
                    name: name@,
                    source_env: source@,
                    source_command: None,
                    required: false,
                    approval: None,
                }
            };
            v.push(grant);
            assert(by_command ==> v@.last().source_env@ =~= seq![]);
            assert(env_texts(v@) =~= before.push(want));
        }
        i = i + 1;
    }
}

fn add_files(v: &mut Vec<FileGrant>, more: &Vec<(String, String)>)
    ensures
        file_texts(final(v)@) == with_files(
            file_texts(old(v)@),
            pair_texts(more@),
            more@.len() as int,
        ),
{
    let ghost start = file_texts(v@);
    let ghost ms = pair_texts(more@);
    let mut i: usize = 0;
    while i < more.len()
        invariant
            i <= more@.len(),
            ms == pair_texts(more@),
            file_texts(v@) == with_files(start, ms, i as int),
        decreases more.len() - i,
    {
        let source = &more[i].0;
        let target = &more[i].1;
        assert(ms[i as int] == (source@, target@));
        let there = file_is_granted(v, source, target);
        if !there {
            let ghost before = file_texts(v@);
            v.push(
                FileGrant {
                    source: source.clone(),
                    target: target.clone(),
                    read_only: true,
                    required: false,
                    approval: None,
                },
            );
            assert(file_texts(v@) =~= before.push(
                FileText {
                    source: source@,
                    target: target@,
                    read_only: true,
                    required: false,
                    approval: None,
                },
            ));
        }
        i = i + 1;
    }
}

fn text_is_there(v: &Vec<String>, t: &str) -> (r: bool)
    ensures
        r == strs(v@).contains(t@),
{
    let ghost ts = strs(v@);
    let mut i: usize = 0;
    while i < v.len()
        invariant
            i <= v@.len(),
            ts == strs(v@),
            forall|k: int| 0 <= k < i ==> #[trigger] ts[k] != t@,
        decreases v.len() - i,
    {
        if same(&v[i], t) {
            assert(ts[i as int] == t@);
            return true;
        }
        assert(ts[i as int] != t@);
        i = i + 1;
    }
    false
}

fn add_texts(v: &mut Vec<String>, more: &Vec<String>)
    ensures
        strs(final(v)@) == with_texts(strs(old(v)@), strs(more@), more@.len() as int),
{
    let ghost start = strs(v@);
    let ghost ms = strs(more@);
    let mut i: usize = 0;
    while i < more.len()
        invariant
            i <= more@.len(),
            ms == strs(more@),
            strs(v@) == with_texts(start, ms, i as int),
        decreases more.len() - i,
    {
        assert(ms[i as int] == more@[i as int]@);
        let there = text_is_there(v, &more[i]);
        if !there {
            push_text(v, more[i].clone());
        }
        i = i + 1;
    }
}

/// The user's grants with those asked for: what is granted stays as it is, and what is
/// new is optional and handed on unasked, a file to be read and not written.
pub fn add(us: &mut UserSecrets, c: &Collected)
    ensures
        env_texts(final(us).env@) == with_envs(
            with_envs(env_texts(old(us).env@), c.texts().env, false, c.texts().env.len() as int),
            c.texts().env_cmd,
            true,
            c.texts().env_cmd.len() as int,
        ),
        file_texts(final(us).files@) == with_files(
            file_texts(old(us).files@),
            c.texts().files,
            c.texts().files.len() as int,
        ),
        strs(final(us).allow.domains@) == with_texts(
            strs(old(us).allow.domains@),
            c.texts().domains,
            c.texts().domains.len() as int,
        ),
        final(us).allow.cidrs == old(us).allow.cidrs,
        final(us).allow.ports == old(us).allow.ports,
{
    add_envs(&mut us.env, &c.env, false);
    add_envs(&mut us.env, &c.env_cmd, true);
    add_files(&mut us.files, &c.files);
    add_texts(&mut us.allow.domains, &c.domains);
}

// ---------------------------------------------------------------------------
// What is shown
// ---------------------------------------------------------------------------

/// Two lines for each of the first `n` variables.
pub open spec fn env_snippet(
    es: Seq<(Seq<char>, Seq<char>)>,
    by_command: bool,
    n: int,
) -> Seq<Seq<char>>
    decreases n,
{
    if n <= 0 {
        seq![]
    } else {
        env_snippet(es, by_command, n - 1).push("    - name: "@ + es[n - 1].0).push(
            if by_command {
                "      source_command: "@ + quoted(es[n - 1].1)
            } else {
                "      source_env: "@ + es[n - 1].1
            },
        )
    }
}

/// Three lines for each of the first `n` files.
pub open spec fn file_snippet(fs: Seq<(Seq<char>, Seq<char>)>, n: int) -> Seq<Seq<char>>
    decreases n,
{
    if n <= 0 {
        seq![]
    } else {
        file_snippet(fs, n - 1).push("    - source: "@ + fs[n - 1].0).push(
            "      target: "@ + fs[n - 1].1,
        ).push("      read_only: true"@)
    }
}

/// The lines for a repository's own settings.
pub open spec fn repo_snippet(c: CollectedText) -> Seq<Seq<char>> {
    let a = seq![
        "# Add the following to .cowboy/security.yaml (host-owned, never mounted).\n"@,
        "# Under `secrets:` —"@,
    ];
    let b = if c.env.len() > 0 || c.env_cmd.len() > 0 {
        a.push("  env:"@) + env_snippet(c.env, false, c.env.len() as int) + env_snippet(
            c.env_cmd,
            true,
            c.env_cmd.len() as int,
        )
    } else {
        a
    };
    let d = if c.files.len() > 0 {
        b.push("  files:"@) + file_snippet(c.files, c.files.len() as int)
    } else {
        b
    };
    let e = if c.domains.len() > 0 {
        d.push("\n# Under `network_policy.allow.domains:` —"@) + c.domains.map_values(
            |t: Seq<char>| "    - "@ + t,
        )
    } else {
        d
    };
    e + c.notes.map_values(|t: Seq<char>| "\n# "@ + t)
}

fn push_env_snippet(out: &mut Vec<String>, es: &Vec<(String, String)>, by_command: bool)
    ensures
        strs(final(out)@) == strs(old(out)@) + env_snippet(
            pair_texts(es@),
            by_command,
            es@.len() as int,
        ),
{
    let ghost start = strs(out@);
    let ghost ps = pair_texts(es@);
    let mut i: usize = 0;
    assert(start + seq![] =~= start);
    while i < es.len()
        invariant
            i <= es@.len(),
            ps == pair_texts(es@),
            strs(out@) == start + env_snippet(ps, by_command, i as int),
        decreases es.len() - i,
    {
        assert(ps[i as int] == (es@[i as int].0@, es@[i as int].1@));
        let mut a = "    - name: ".to_owned();
        a.push_str(&es[i].0);
        let b = if by_command {
            let mut b = "      source_command: ".to_owned();
            b.push_str(&quote(&es[i].1));
            b
        } else {
            let mut b = "      source_env: ".to_owned();
            b.push_str(&es[i].1);
            b
        };
        push_text(out, a);
        push_text(out, b);
        assert(strs(out@) =~= start + env_snippet(ps, by_command, i + 1));
        i = i + 1;
    }
}

fn push_file_snippet(out: &mut Vec<String>, fs: &Vec<(String, String)>)
    ensures
        strs(final(out)@) == strs(old(out)@) + file_snippet(pair_texts(fs@), fs@.len() as int),
{
    let ghost start = strs(out@);
    let ghost ps = pair_texts(fs@);
    let mut i: usize = 0;
    assert(start + seq![] =~= start);
    while i < fs.len()
        invariant
            i <= fs@.len(),
            ps == pair_texts(fs@),
            strs(out@) == start + file_snippet(ps, i as int),
        decreases fs.len() - i,
    {
        assert(ps[i as int] == (fs@[i as int].0@, fs@[i as int].1@));
        let mut a = "    - source: ".to_owned();
        a.push_str(&fs[i].0);
        let mut b = "      target: ".to_owned();
        b.push_str(&fs[i].1);
        push_text(out, a);
        push_text(out, b);
        push_text(out, "      read_only: true".to_owned());
        assert(strs(out@) =~= start + file_snippet(ps, i + 1));
        i = i + 1;
    }
}

/// Texts with a word before each.
pub open spec fn prefixed(ts: Seq<Seq<char>>, p: Seq<char>) -> Seq<Seq<char>> {
    Seq::new(ts.len(), |i: int| p + ts[i])
}

fn push_prefixed(out: &mut Vec<String>, ts: &Vec<String>, p: &str)
    ensures
        strs(final(out)@) == strs(old(out)@) + prefixed(strs(ts@), p@),
{
    let ghost start = strs(out@);
    let ghost all = prefixed(strs(ts@), p@);
    let mut i: usize = 0;
    assert(strs(out@) =~= start + all.take(0));
    while i < ts.len()
        invariant
            i <= ts@.len(),
            all == prefixed(strs(ts@), p@),
            strs(out@) == start + all.take(i as int),
        decreases ts.len() - i,
    {
        let mut line = p.to_owned();
        line.push_str(&ts[i]);
        assert(strs(ts@)[i as int] == ts@[i as int]@);
        push_text(out, line);
        assert(strs(out@) =~= start + all.take(i + 1));
        i = i + 1;
    }
    assert(all.take(all.len() as int) =~= all);
}

/// The lines for a repository's own settings.
pub fn repo_lines(c: &Collected) -> (r: Vec<String>)
    ensures
        strs(r@) == repo_snippet(c.texts()),
{
    let mut out: Vec<String> = Vec::new();
    push_text(
        &mut out,
        "# Add the following to .cowboy/security.yaml (host-owned, never mounted).\n".to_owned(),
    );
    push_text(&mut out, "# Under `secrets:` —".to_owned());
    let ghost t = c.texts();
    assert(strs(out@) =~= seq![
        "# Add the following to .cowboy/security.yaml (host-owned, never mounted).\n"@,
        "# Under `secrets:` —"@,
    ]);
    assert(t.env.len() == c.env@.len() && t.env_cmd.len() == c.env_cmd@.len() && t.files.len()
        == c.files@.len() && t.domains.len() == c.domains@.len());
    if c.env.len() > 0 || c.env_cmd.len() > 0 {
        push_text(&mut out, "  env:".to_owned());
        push_env_snippet(&mut out, &c.env, false);
        push_env_snippet(&mut out, &c.env_cmd, true);
    }
    if c.files.len() > 0 {
        push_text(&mut out, "  files:".to_owned());
        push_file_snippet(&mut out, &c.files);
    }
    if c.domains.len() > 0 {
        push_text(&mut out, "\n# Under `network_policy.allow.domains:` —".to_owned());
        push_prefixed(&mut out, &c.domains, "    - ");
        assert(prefixed(t.domains, "    - "@) =~= t.domains.map_values(
            |s: Seq<char>| "    - "@ + s,
        ));
    }
    push_prefixed(&mut out, &c.notes, "\n# ");
    assert(prefixed(t.notes, "\n# "@) =~= t.notes.map_values(|s: Seq<char>| "\n# "@ + s));
    out
}

/// What is said where grants were kept.
pub fn written_lines(path: &str, global: bool, notes: &Vec<String>) -> (r: Vec<String>)
    ensures
        strs(r@) == seq![
            "✓ wrote credential grant to "@ + path@,
            "  applies to "@ + (if global {
                "all projects"@
            } else {
                "this repo (all worktrees)"@
            }) + " (merged with the repo's security.yaml at session start)"@,
        ] + prefixed(strs(notes@), "  "@),
{
    let mut out: Vec<String> = Vec::new();
    let mut a = "✓ wrote credential grant to ".to_owned();
    a.push_str(path);
    let mut b = "  applies to ".to_owned();
    b.push_str(
        if global {
            "all projects"
        } else {
            "this repo (all worktrees)"
        },
    );
    b.push_str(" (merged with the repo's security.yaml at session start)");
    let ghost head = seq![a@, b@];
    push_text(&mut out, a);
    push_text(&mut out, b);
    assert(strs(out@) =~= head);
    push_prefixed(&mut out, notes, "  ");
    out
}

/// The line on a variable that is granted, and whether the host has it.
pub open spec fn env_line(e: EnvGrant, label: Seq<char>, ok: bool) -> Seq<char> {
    match e.source_command {
        Some(cmd) => "  env   "@ + e.name@ + " ← `"@ + cmd@ + "`  ["@ + label + "] ["@ + (if ok {
            "ok"@
        } else {
            "FAILED on host"@
        }) + "]"@,
        None => "  env   "@ + e.name@ + " ← $"@ + e.source_env@ + "  ["@ + label + "] ["@ + (if ok {
            "set"@
        } else {
            "MISSING on host"@
        }) + "]"@,
    }
}

/// The line on a file that is granted, and whether the host has it.
pub open spec fn file_line(f: FileGrant, label: Seq<char>, present: bool) -> Seq<char> {
    "  file  "@ + f.source@ + " → "@ + f.target@ + "  ["@ + label + "] ["@ + (if f.read_only {
        "ro"@
    } else {
        "rw"@
    }) + "] ["@ + (if present {
        "present"@
    } else {
        "MISSING on host"@
    }) + "]"@
}

fn env_text(e: &EnvGrant, label: &str, ok: bool) -> (r: String)
    ensures
        r@ == env_line(*e, label@, ok),
{
    let mut s = "  env   ".to_owned();
    s.push_str(&e.name);
    match &e.source_command {
        Some(cmd) => {
            s.push_str(" ← `");
            s.push_str(cmd);
            s.push_str("`  [");
            s.push_str(label);
            s.push_str("] [");
            s.push_str(
                if ok {
                    "ok"
                } else {
                    "FAILED on host"
                },
            );
        },
        None => {
            s.push_str(" ← $");
            s.push_str(&e.source_env);
            s.push_str("  [");
            s.push_str(label);
            s.push_str("] [");
            s.push_str(
                if ok {
                    "set"
                } else {
                    "MISSING on host"
                },
            );
        },
    }
    s.push_str("]");
    s
}

fn file_text(f: &FileGrant, label: &str, present: bool) -> (r: String)
    ensures
        r@ == file_line(*f, label@, present),
{
    let mut s = "  file  ".to_owned();
    s.push_str(&f.source);
    s.push_str(" → ");
    s.push_str(&f.target);
    s.push_str("  [");
    s.push_str(label);
    s.push_str("] [");
    s.push_str(
        if f.read_only {
            "ro"
        } else {
            "rw"
        },
    );
    s.push_str("] [");
    s.push_str(
        if present {
            "present"
        } else {
            "MISSING on host"
        },
    );
    s.push_str("]");
    s
}

/// Grants from one place, each with whether the host has what it names.
#[derive(Debug)]
pub struct Source {
    pub label: String,
    pub env: Vec<(EnvGrant, bool)>,
    pub files: Vec<(FileGrant, bool)>,
}

/// The lines on the grants of one place.
pub open spec fn source_lines(s: Source) -> Seq<Seq<char>> {
    Seq::new(s.env@.len(), |i: int| env_line(s.env@[i].0, s.label@, s.env@[i].1)) + Seq::new(
        s.files@.len(),
        |i: int| file_line(s.files@[i].0, s.label@, s.files@[i].1),
    )
}

/// The lines on the grants of the first `n` places.
pub open spec fn sources_lines(ss: Seq<Source>, n: int) -> Seq<Seq<char>>
    decreases n,
{
    if n <= 0 {
        seq![]
    } else {
        sources_lines(ss, n - 1) + source_lines(ss[n - 1])
    }
}

/// The lines on all grants, or that there is none.
pub open spec fn listing(ss: Seq<Source>) -> Seq<Seq<char>> {
    let all = sources_lines(ss, ss.len() as int);
    if all.len() == 0 {
        seq![
            "no credential grants. Add one with `cowboy secrets add <preset>`."@,
            "presets: "@ + join(preset_names(), ", "@),
        ]
    } else {
        all
    }
}

fn push_source(out: &mut Vec<String>, s: &Source)
    ensures
        strs(final(out)@) == strs(old(out)@) + source_lines(*s),
{
    let ghost start = strs(out@);
    let ghost all = source_lines(*s);
    let mut i: usize = 0;
    assert(strs(out@) =~= start + all.take(0));
    while i < s.env.len()
        invariant
            i <= s.env@.len(),
            all == source_lines(*s),
            strs(out@) == start + all.take(i as int),
        decreases s.env.len() - i,
    {
        let line = env_text(&s.env[i].0, &s.label, s.env[i].1);
        assert(all[i as int] == line@);
        push_text(out, line);
        assert(strs(out@) =~= start + all.take(i + 1));
        i = i + 1;
    }
    let mut k: usize = 0;
    while k < s.files.len()
        invariant
            k <= s.files@.len(),
            all == source_lines(*s),
            strs(out@) == start + all.take(s.env@.len() + k),
        decreases s.files.len() - k,
    {
        let line = file_text(&s.files[k].0, &s.label, s.files[k].1);
        assert(all[s.env@.len() + k] == line@);
        push_text(out, line);
        assert(strs(out@) =~= start + all.take(s.env@.len() + k + 1));
        k = k + 1;
    }
    assert(all.take(all.len() as int) =~= all);
}

/// The lines on all grants, or that there is none.
pub fn list(sources: &Vec<Source>) -> (r: Vec<String>)
    ensures
        strs(r@) == listing(sources@),
{
    let mut out: Vec<String> = Vec::new();
    let mut i: usize = 0;
    assert(strs(out@) =~= seq![]);
    while i < sources.len()
        invariant
            i <= sources@.len(),
            strs(out@) == sources_lines(sources@, i as int),
        decreases sources.len() - i,
    {
        push_source(&mut out, &sources[i]);
        i = i + 1;
    }
    assert(strs(out@).len() == out@.len());
    if out.len() == 0 {
        push_text(
            &mut out,
            "no credential grants. Add one with `cowboy secrets add <preset>`.".to_owned(),
        );
        let mut line = "presets: ".to_owned();
        line.push_str(&joined(&presets(), ", "));
        push_text(&mut out, line);
        assert(strs(out@) =~= listing(sources@));
    }
    out
}

// ---------------------------------------------------------------------------
// Laws
// ---------------------------------------------------------------------------

/// What is granted stays as it is when more is added, and every variable asked for is
/// granted in the end.
pub proof fn adding_keeps_variables(
    es: Seq<EnvText>,
    more: Seq<(Seq<char>, Seq<char>)>,
    by_command: bool,
    n: int,
)
    requires
        0 <= n <= more.len(),
    ensures
        es.is_prefix_of(with_envs(es, more, by_command, n)),
        forall|k: int|
            0 <= k < n ==> has_env(with_envs(es, more, by_command, n), (#[trigger] more[k]).0),
    decreases n,
{
    if n > 0 {
        adding_keeps_variables(es, more, by_command, n - 1);
        let b = with_envs(es, more, by_command, n - 1);
        let t = with_envs(es, more, by_command, n);
        assert(b.is_prefix_of(t));
        assert forall|k: int| 0 <= k < n implies has_env(t, (#[trigger] more[k]).0) by {
            if k < n - 1 {
                assert(has_env(b, more[k].0));
                let i = choose|i: int| 0 <= i < b.len() && (#[trigger] b[i]).name == more[k].0;
                assert(t[i].name == more[k].0);
            } else if !has_env(b, more[k].0) {
                assert(t[b.len() as int].name == more[k].0);
            }
        }
    } else {
        assert(es.is_prefix_of(es));
    }
}

/// What is granted stays as it is when more is added, and every file that comes new is
/// to be read and not written.
pub proof fn new_files_are_read_only(fs: Seq<FileText>, more: Seq<(Seq<char>, Seq<char>)>, n: int)
    requires
        0 <= n <= more.len(),
    ensures
        fs.is_prefix_of(with_files(fs, more, n)),
        forall|i: int|
            fs.len() <= i < with_files(fs, more, n).len() ==> (#[trigger] with_files(
                fs,
                more,
                n,
            )[i]).read_only,
    decreases n,
{
    if n > 0 {
        new_files_are_read_only(fs, more, n - 1);
    } else {
        assert(fs.is_prefix_of(fs));
    }
}

proof fn lemma_first_mark(a: Seq<char>, c: char, b: Seq<char>)
    requires
        !a.contains(c),
    ensures
        find(a + seq![c] + b, seq![c], 0) == Some(a.len() as int),
        (a + seq![c] + b).take(a.len() as int) == a,
        (a + seq![c] + b).skip(1int + a.len()) == b,
{
    let s = a + seq![c] + b;
    let mark = seq![c];
    lemma_find(s, mark, 0);
    assert(s.subrange(a.len() as int, 1int + a.len()) =~= mark);
    assert(at(s, mark, a.len() as int));
    let i = find(s, mark, 0)->0;
    if i < a.len() {
        assert(s.subrange(i, i + 1)[0] == a[i]);
        assert(a.contains(a[i]));
    }
    assert(s.take(a.len() as int) =~= a);
    assert(s.skip(1int + a.len()) =~= b);
}

proof fn lemma_no_mark(s: Seq<char>, c: char)
    requires
        !s.contains(c),
    ensures
        find(s, seq![c], 0) is None,
{
    lemma_find(s, seq![c], 0);
    if find(s, seq![c], 0) is Some {
        let i = find(s, seq![c], 0)->0;
        assert(s.subrange(i, i + 1)[0] == s[i]);
        assert(s.contains(s[i]));
    }
}

/// How a grant is written: `NAME=SOURCE` is the variable of another name, and a name alone
/// the one of its own; `SOURCE:TARGET` is the file at another path, and a path alone the
/// one of its name in the container's home.
pub proof fn grants_are_read(a: Seq<char>, b: Seq<char>)
    ensures
        !a.contains('=') ==> env_grant(a + seq!['='] + b) == (a, b) && env_grant(a) == (a, a),
        !a.contains(':') ==> file_grant(a + seq![':'] + b) == (a, b),
        !a.contains(':') ==> (last_name(a) matches Some(n) ==> file_grant(a) == (a, "/tmp/"@ + n)),
{
    if !a.contains('=') {
        lemma_first_mark(a, '=', b);
        lemma_no_mark(a, '=');
    }
    if !a.contains(':') {
        lemma_first_mark(a, ':', b);
        lemma_no_mark(a, ':');
    }
}

/// Something is added exactly where there is something to add: a preset that there is, or
/// a variable or a file that is named, and no preset that there is not.
pub proof fn requests_name_something(a: SecretsAddArgs)
    ensures
        collect_error(a) is None <==> {
            &&& a.preset matches Some(p) ==> preset_names().contains(p@)
            &&& a.preset is Some || a.env@.len() > 0 || a.file@.len() > 0
        },
{
    let names = preset_names();
    assert(names[0] == "gh"@ && names[1] == "gcloud"@ && names[2] == "kubectl"@ && names[3]
        == "aws"@ && names[4] == "git"@ && names[5] == "ssh"@);
    if a.preset is Some {
        let p = (a.preset->0)@;
        assert(names.contains(p) <==> preset_of(p) is Some) by {
            if names.contains(p) {
                let k = names.index_of(p);
                assert(0 <= k < 6 && names[k] == p);
            }
        }
        if preset_of(p) is Some {
            assert(asked(a).files.len() >= preset_part(a).files.len());
            assert(preset_part(a).files.len() > 0);
        }
    }
    assert(strs(a.env@).len() == a.env@.len());
    assert(strs(a.file@).len() == a.file@.len());
}

/// A variable that comes new is neither required nor asked about, and has its value from
/// where it was said: from the host's variable of that name, or from the command.
pub proof fn new_variables_are_as_asked(
    es: Seq<EnvText>,
    more: Seq<(Seq<char>, Seq<char>)>,
    by_command: bool,
    n: int,
    i: int,
)
    requires
        0 <= n <= more.len(),
        es.len() <= i < with_envs(es, more, by_command, n).len(),
    ensures
        ({
            let e = with_envs(es, more, by_command, n)[i];
            &&& !e.required && e.approval is None
            &&& !has_env(es, e.name)
            &&& exists|k: int|
                0 <= k < n && (#[trigger] more[k]).0 == e.name && (if by_command {
                    e.source_command == Some(more[k].1) && e.source_env.len() == 0
                } else {
                    e.source_command is None && e.source_env == more[k].1
                })
        }),
    decreases n,
{
    if n > 0 {
        let b = with_envs(es, more, by_command, n - 1);
        let t = with_envs(es, more, by_command, n);
        if i < b.len() {
            new_variables_are_as_asked(es, more, by_command, n - 1, i);
            assert(t[i] == b[i]);
            let e = b[i];
            let k = choose|k: int|
                0 <= k < n - 1 && (#[trigger] more[k]).0 == e.name && (if by_command {
                    e.source_command == Some(more[k].1) && e.source_env.len() == 0
                } else {
                    e.source_command is None && e.source_env == more[k].1
                });
            assert(more[k].0 == e.name);
        } else {
            assert(more[n - 1].0 == t[i].name);
            adding_keeps_variables(es, more, by_command, n - 1);
            if has_env(es, t[i].name) {
                let j = choose|j: int| 0 <= j < es.len() && (#[trigger] es[j]).name == t[i].name;
                assert(b[j] == es[j]);
            }
        }
    }
}

/// Every file that is asked for is granted in the end, and every domain let through, and
/// nothing that was there is lost.
pub proof fn everything_asked_for_is_added(
    fs: Seq<FileText>,
    files: Seq<(Seq<char>, Seq<char>)>,
    ts: Seq<Seq<char>>,
    domains: Seq<Seq<char>>,
    n: int,
    m: int,
)
    requires
        0 <= n <= files.len(),
        0 <= m <= domains.len(),
    ensures
        forall|k: int|
            0 <= k < n ==> has_file(
                with_files(fs, files, n),
                (#[trigger] files[k]).0,
                files[k].1,
            ),
        ts.is_prefix_of(with_texts(ts, domains, m)),
        forall|k: int| 0 <= k < m ==> with_texts(ts, domains, m).contains(#[trigger] domains[k]),
        forall|i: int|
            ts.len() <= i < with_texts(ts, domains, m).len() ==> domains.contains(
                #[trigger] with_texts(ts, domains, m)[i],
            ),
    decreases n + m,
{
    if n > 0 {
        everything_asked_for_is_added(fs, files, ts, domains, n - 1, m);
        let b = with_files(fs, files, n - 1);
        let t = with_files(fs, files, n);
        assert forall|k: int| 0 <= k < n implies has_file(
            t,
            (#[trigger] files[k]).0,
            files[k].1,
        ) by {
            if k < n - 1 {
                assert(has_file(b, files[k].0, files[k].1));
                let j = choose|j: int|
                    0 <= j < b.len() && (#[trigger] b[j]).source == files[k].0 && b[j].target
                        == files[k].1;
                assert(t[j] == b[j]);
            } else if !has_file(b, files[k].0, files[k].1) {
                assert(t[b.len() as int].source == files[k].0);
            }
        }
    } else if m > 0 {
        everything_asked_for_is_added(fs, files, ts, domains, n, m - 1);
        let b = with_texts(ts, domains, m - 1);
        let t = with_texts(ts, domains, m);
        assert forall|k: int| 0 <= k < m implies t.contains(#[trigger] domains[k]) by {
            if k < m - 1 {
                assert(b.contains(domains[k]));
                assert(t[b.index_of(domains[k])] == domains[k]);
            } else if !b.contains(domains[k]) {
                assert(t[b.len() as int] == domains[k]);
            }
        }
        assert forall|i: int| ts.len() <= i < t.len() implies domains.contains(#[trigger] t[i]) by {
            if i < b.len() {
                assert(t[i] == b[i]);
            } else {
                assert(domains[m - 1] == t[i]);
            }
        }
    } else {
        assert(ts.is_prefix_of(ts));
    }
}

} // verus!
