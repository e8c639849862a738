//! Whether the servers that a repository asks for may be used. They may once the user
//! has approved them, and no longer once they have changed.

use crate::mcp::{McpServer, McpTransport};
use crate::paths::{hex8, hexadecimal, low_half, path_hash, project_hash};
use crate::registry::Registry;
use crate::text::{same, strs};
use crate::words::{dec, decimal_size};
use vstd::prelude::*;

verus! {

broadcast use vstd::string::group_string_axioms;

/// What the user's approval says of a repository's servers as they are.
#[derive(Debug, Clone, Copy, PartialEq, Eq, Structural)]
pub enum TrustState {
    /// The repository asks for none.
    NoFile,
    /// It asks for some that were never approved, or what it asks cannot be read.
    Untrusted,
    /// It asks for others than were approved.
    Stale,
    /// It asks for those that were approved.
    Trusted,
}

impl TrustState {
    /// What is shown of a state.
    pub open spec fn shown(self) -> Seq<char> {
        match self {
            TrustState::NoFile => "none"@,
            TrustState::Untrusted => "untrusted"@,
            TrustState::Stale => "stale — re-run `cowboy mcp trust`"@,
            TrustState::Trusted => "trusted"@,
        }
    }

    /// What is shown of a state.
    pub fn label(self) -> (r: &'static str)
        ensures
            r@ == self.shown(),
    {
        match self {
            TrustState::NoFile => "none",
            TrustState::Untrusted => "untrusted",
            TrustState::Stale => "stale — re-run `cowboy mcp trust`",
            TrustState::Trusted => "trusted",
        }
    }
}

/// What a repository asks for.
#[derive(Debug)]
pub enum ProjectFile {
    Absent,
    /// It cannot be read, and why.
    Unreadable(String),
    Servers(Registry<McpServer>),
}

/// What the user approved, and when.
#[derive(Debug)]
pub struct TrustRecord {
    pub servers: Registry<McpServer>,
    pub approved_ms: u64,
}

// ---------------------------------------------------------------------------
// Two sets of servers are the same
// ---------------------------------------------------------------------------

/// Texts by name.
pub open spec fn named_texts(r: Registry<String>) -> Seq<(Seq<char>, Seq<char>)> {
    Seq::new(r.list().len(), |i: int| (r.list()[i].0@, r.list()[i].1@))
}

/// How a server is reached, as texts.
pub enum Reach {
    Stdio {
        command: Seq<char>,
        args: Seq<Seq<char>>,
        env: Seq<(Seq<char>, Seq<char>)>,
    },
    Http { url: Seq<char>, headers: Seq<(Seq<char>, Seq<char>)> },
}

/// A server, as texts.
pub struct ServerText {
    pub description: Seq<char>,
    pub enabled: bool,
    pub reach: Reach,
    pub tools: Seq<Seq<char>>,
}

/// How a server is reached, as texts.
pub open spec fn reach(t: McpTransport) -> Reach {
    match t {
        McpTransport::Stdio { command, args, env } => Reach::Stdio {
            command: command@,
            args: strs(args@),
            env: named_texts(env),
        },
        McpTransport::Http { url, headers } => Reach::Http {
            url: url@,
            headers: named_texts(headers),
        },
    }
}

/// A server, as texts.
pub open spec fn server_text(s: McpServer) -> ServerText {
    ServerText {
        description: s.description@,
        enabled: s.enabled,
        reach: reach(s.transport),
        tools: strs(s.tools@),
    }
}

/// Servers by name, as texts.
pub open spec fn server_texts(r: Registry<McpServer>) -> Seq<(Seq<char>, ServerText)> {
    Seq::new(r.list().len(), |i: int| (r.list()[i].0@, server_text(r.list()[i].1)))
}

fn same_all(a: &Vec<String>, b: &Vec<String>) -> (r: bool)
    ensures
        r == (strs(a@) == strs(b@)),
{
    if a.len() != b.len() {
        assert(strs(a@).len() != strs(b@).len());
        return false;
    }
    let mut i: usize = 0;
    while i < a.len()
        invariant
            i <= a@.len(),
            a@.len() == b@.len(),
            forall|k: int| 0 <= k < i ==> #[trigger] strs(a@)[k] == strs(b@)[k],
        decreases a.len() - i,
    {
        let equal = same(&a[i], &b[i]);
        if !equal {
            assert(strs(a@)[i as int] != strs(b@)[i as int]);
            return false;
        }
        i = i + 1;
    }
    assert(strs(a@) =~= strs(b@));
    true
}

fn same_named(a: &Registry<String>, b: &Registry<String>) -> (r: bool)
    ensures
        r == (named_texts(*a) == named_texts(*b)),
{
    if a.len() != b.len() {
        assert(named_texts(*a).len() != named_texts(*b).len());
        return false;
    }
    let n = a.len();
    let mut i: usize = 0;
    while i < n
        invariant
            i <= n,
            n == a.list().len(),
            n == b.list().len(),
            forall|k: int| 0 <= k < i ==> #[trigger] named_texts(*a)[k] == named_texts(*b)[k],
        decreases n - i,
    {
        let equal = same(a.name_at(i), b.name_at(i)) && same(a.value_at(i), b.value_at(i));
        if !equal {
            assert(named_texts(*a)[i as int] != named_texts(*b)[i as int]);
            return false;
        }
        i = i + 1;
    }
    assert(named_texts(*a) =~= named_texts(*b));
    true
}

fn same_reach(a: &McpTransport, b: &McpTransport) -> (r: bool)
    ensures
        r == (reach(*a) == reach(*b)),
{
    match (a, b) {
        (
            McpTransport::Stdio { command: c, args: xs, env: e },
            McpTransport::Stdio { command: d, args: ys, env: f },
        ) => same(c, d) && same_all(xs, ys) && same_named(e, f),
        (
            McpTransport::Http { url: u, headers: h },
            McpTransport::Http { url: v, headers: k },
        ) => same(u, v) && same_named(h, k),
        _ => false,
    }
}

/// Whether two sets of servers are the same: the same names, and each server the same in
/// every part.
pub fn same_servers(a: &Registry<McpServer>, b: &Registry<McpServer>) -> (r: bool)
    ensures
        r == (server_texts(*a) == server_texts(*b)),
{
    if a.len() != b.len() {
        assert(server_texts(*a).len() != server_texts(*b).len());
        return false;
    }
    let n = a.len();
    let mut i: usize = 0;
    while i < n
        invariant
            i <= n,
            n == a.list().len(),
            n == b.list().len(),
            forall|k: int| 0 <= k < i ==> #[trigger] server_texts(*a)[k] == server_texts(*b)[k],
        decreases n - i,
    {
        let x = a.value_at(i);
        let y = b.value_at(i);
        let equal = same(a.name_at(i), b.name_at(i)) && same(&x.description, &y.description)
            && x.enabled == y.enabled && same_reach(&x.transport, &y.transport) && same_all(
            &x.tools,
            &y.tools,
        );
        if !equal {
            assert(server_texts(*a)[i as int] != server_texts(*b)[i as int]);
            return false;
        }
        i = i + 1;
    }
    assert(server_texts(*a) =~= server_texts(*b));
    true
}

// ---------------------------------------------------------------------------
// Trust
// ---------------------------------------------------------------------------

/// What the approval, where there is one, says of what the repository asks for.
pub open spec fn state_of(file: ProjectFile, record: Option<TrustRecord>) -> TrustState {
    match file {
        ProjectFile::Absent => TrustState::NoFile,
        ProjectFile::Unreadable(_) => TrustState::Untrusted,
        ProjectFile::Servers(current) => match record {
            None => TrustState::Untrusted,
            Some(rec) => if server_texts(rec.servers) == server_texts(current) {
                TrustState::Trusted
            } else {
                TrustState::Stale
            },
        },
    }
}

/// What the approval, where there is one, says of what the repository asks for.
pub fn project_trust(file: &ProjectFile, record: &Option<TrustRecord>) -> (r: TrustState)
    ensures
        r == state_of(*file, *record),
{
    match file {
        ProjectFile::Absent => TrustState::NoFile,
        ProjectFile::Unreadable(_) => TrustState::Untrusted,
        ProjectFile::Servers(current) => match record {
            None => TrustState::Untrusted,
            Some(rec) => if same_servers(&rec.servers, current) {
                TrustState::Trusted
            } else {
                TrustState::Stale
            },
        },
    }
}

/// The servers that may be used: those asked for where they are trusted, and none
/// otherwise.
pub fn trusted_servers(file: ProjectFile, record: &Option<TrustRecord>) -> (r: Registry<McpServer>)
    ensures
        match file {
            ProjectFile::Servers(current) => if state_of(file, *record) == TrustState::Trusted {
                r == current
            } else {
                r.list().len() == 0
            },
            _ => r.list().len() == 0,
        },
{
    let state = project_trust(&file, record);
    match file {
        ProjectFile::Servers(current) => match state {
            TrustState::Trusted => current,
            _ => Registry::new(),
        },
        _ => Registry::new(),
    }
}

/// The approval of what the repository asks for now.
pub fn trust(file: ProjectFile, now_ms: u64) -> (r: Result<TrustRecord, String>)
    ensures
        match file {
            ProjectFile::Servers(current) => r matches Ok(rec) && rec.servers == current
                && rec.approved_ms == now_ms,
            ProjectFile::Absent => r matches Err(why) && why@ == "no .mcp.json in this repo"@,
            ProjectFile::Unreadable(w) => r matches Err(why) && why@ == "reading .mcp.json: "@ + w@,
        },
{
    match file {
        ProjectFile::Servers(servers) => Ok(TrustRecord { servers, approved_ms: now_ms }),
        ProjectFile::Absent => Err("no .mcp.json in this repo".to_owned()),
        ProjectFile::Unreadable(w) => {
            let mut why = "reading .mcp.json: ".to_owned();
            why.push_str(&w);
            Err(why)
        },
    }
}

/// Revoking leaves no approval, and says whether there was one.
pub fn untrust(record: Option<TrustRecord>) -> (r: (Option<TrustRecord>, bool))
    ensures
        r.0 is None,
        r.1 == (record is Some),
{
    (None, record.is_some())
}

/// What is said of revoking, where there was an approval and where there was none.
pub fn untrust_line(existed: bool) -> (r: &'static str)
    ensures
        r@ == if existed {
            "revoked trust for this repo's .mcp.json servers"@
        } else {
            "this repo's .mcp.json was not trusted"@
        },
{
    if existed {
        "revoked trust for this repo's .mcp.json servers"
    } else {
        "this repo's .mcp.json was not trusted"
    }
}

/// What stands above the servers that a repository asks for.
pub fn pending_heading(count: usize, path: &str) -> (r: String)
    ensures
        r@ == dec(count as nat) + " server(s) declared by "@ + path@,
{
    let mut out = decimal_size(count);
    out.push_str(" server(s) declared by ");
    out.push_str(path);
    out
}

/// What is said of an approval.
pub fn trusted_lines(count: usize) -> (r: Vec<String>)
    ensures
        strs(r@) == seq![
            "trusted "@ + dec(count as nat) + " server(s) from .mcp.json"@,
            "the agent can now use these via the `mcp` tool"@,
            "re-run `cowboy mcp trust` if .mcp.json changes"@,
        ],
{
    let mut first = "trusted ".to_owned();
    first.push_str(&decimal_size(count));
    first.push_str(" server(s) from .mcp.json");
    let mut out: Vec<String> = Vec::new();
    out.push(first);
    out.push("the agent can now use these via the `mcp` tool".to_owned());
    out.push("re-run `cowboy mcp trust` if .mcp.json changes".to_owned());
    assert(strs(out@) =~= seq![
        "trusted "@ + dec(count as nat) + " server(s) from .mcp.json"@,
        "the agent can now use these via the `mcp` tool"@,
        "re-run `cowboy mcp trust` if .mcp.json changes"@,
    ]);
    out
}

/// The lines on a repository's servers, where it asks for any that can be read.
pub open spec fn project_line(name: Seq<char>, label: Seq<char>, shadowed: bool) -> Seq<char> {
    "  "@ + name + "  "@ + label + if shadowed {
        "  (shadowed by host config)"@
    } else {
        ""@
    }
}

/// The lines on a repository's servers: one of a name that the user has too is noted as
/// shadowed, and what is not trusted comes with how to trust it.
pub fn project_lines(
    state: TrustState,
    servers: &Registry<McpServer>,
    labels: &Vec<String>,
    host: &Registry<McpServer>,
) -> (r: Vec<String>)
    requires
        labels.len() == servers.list().len(),
    ensures
        strs(r@) == seq!["\nProject servers (.mcp.json) — "@ + state.shown() + ":"@] + Seq::new(
            servers.list().len(),
            |i: int|
                project_line(
                    servers.list()[i].0@,
                    labels@[i]@,
                    host.has(servers.list()[i].0@),
                ),
        ) + (if state == TrustState::Untrusted || state == TrustState::Stale {
            seq!["  → review and enable with `cowboy mcp trust`"@]
        } else {
            seq![]
        }),
{
    let mut out: Vec<String> = Vec::new();
    let mut head = "\nProject servers (.mcp.json) — ".to_owned();
    head.push_str(state.label());
    head.push_str(":");
    let ghost h = seq![head@];
    crate::text::push_text(&mut out, head);
    let ghost all = Seq::new(
        servers.list().len(),
        |i: int|
            project_line(servers.list()[i].0@, labels@[i]@, host.has(servers.list()[i].0@)),
    );
    let n = servers.len();
    let mut i: usize = 0;
    assert(strs(out@) =~= h + all.take(0));
    while i < n
        invariant
            i <= n,
            n == servers.list().len(),
            n == labels@.len(),
            all == Seq::new(
                servers.list().len(),
                |i: int|
                    project_line(servers.list()[i].0@, labels@[i]@, host.has(servers.list()[i].0@)),
            ),
            strs(out@) == h + all.take(i as int),
        decreases n - i,
    {
        let name = servers.name_at(i);
        let mut line = "  ".to_owned();
        line.push_str(name);
        line.push_str("  ");
        line.push_str(&labels[i]);
        line.push_str(
            if host.contains(name) {
                "  (shadowed by host config)"
            } else {
                ""
            },
        );
        assert(line@ == all[i as int]);
        crate::text::push_text(&mut out, line);
        assert(strs(out@) =~= h + all.take(i + 1));
        i = i + 1;
    }
    assert(all.take(n as int) =~= all);
    match state {
        TrustState::Untrusted | TrustState::Stale => {
            crate::text::push_text(
                &mut out,
                "  → review and enable with `cowboy mcp trust`".to_owned(),
            );
        },
        _ => {},
    }
    out
}

/// The file of a project's approval.
pub fn record_file(root: &str) -> (r: String)
    ensures
        r@ == hex8(low_half(path_hash(root@))) + ".json"@,
{
    let mut out = hexadecimal(project_hash(root));
    out.push_str(".json");
    out
}

/// What was approved is trusted as long as it is the same, and stale once it differs in
/// anything; what was never approved is not trusted.
pub proof fn trust_is_pinned(approved: Registry<McpServer>, current: Registry<McpServer>, when: u64)
    ensures
        state_of(ProjectFile::Servers(current), Some(TrustRecord { servers: approved, approved_ms: when }))
            == TrustState::Trusted <==> server_texts(approved) == server_texts(current),
        state_of(ProjectFile::Servers(current), Some(TrustRecord { servers: approved, approved_ms: when }))
            == TrustState::Stale <==> server_texts(approved) != server_texts(current),
        state_of(ProjectFile::Servers(approved), Some(TrustRecord { servers: approved, approved_ms: when }))
            == TrustState::Trusted,
        state_of(ProjectFile::Servers(current), None) == TrustState::Untrusted,
{
}

/// Everything that a server can do is part of what is approved: two files are taken for the
/// same only where they have the same servers, by name, and each runs the same command
/// with the same arguments and variables, or goes to the same place with the same headers,
/// and has the same tools, description and state.
pub proof fn every_part_is_pinned(a: Registry<McpServer>, b: Registry<McpServer>, i: int)
    requires
        server_texts(a) == server_texts(b),
        0 <= i < a.list().len(),
    ensures
        a.list().len() == b.list().len(),
        a.list()[i].0@ == b.list()[i].0@,
        ({
            let x = a.list()[i].1;
            let y = b.list()[i].1;
            &&& x.enabled == y.enabled
            &&& x.description@ == y.description@
            &&& strs(x.tools@) == strs(y.tools@)
            &&& match (x.transport, y.transport) {
                (
                    McpTransport::Stdio { command: c, args: p, env: e },
                    McpTransport::Stdio { command: d, args: q, env: f },
                ) => c@ == d@ && strs(p@) == strs(q@) && same_texts(e, f),
                (
                    McpTransport::Http { url: u, headers: h },
                    McpTransport::Http { url: v, headers: k },
                ) => u@ == v@ && same_texts(h, k),
                _ => false,
            }
        }),
{
    let sa = server_texts(a);
    let sb = server_texts(b);
    assert(sa.len() == a.list().len());
    assert(sb.len() == b.list().len());
    assert(sa[i] == sb[i]);
    let x = a.list()[i].1;
    let y = b.list()[i].1;
    assert(server_text(x) == server_text(y));
    assert(reach(x.transport) == reach(y.transport));
    match (x.transport, y.transport) {
        (
            McpTransport::Stdio { command: c, args: p, env: e },
            McpTransport::Stdio { command: d, args: q, env: f },
        ) => {
            lemma_same_texts(e, f);
        },
        (
            McpTransport::Http { url: u, headers: h },
            McpTransport::Http { url: v, headers: k },
        ) => {
            lemma_same_texts(h, k);
        },
        _ => {},
    }
}

/// Two tables of texts hold the same, name by name.
pub open spec fn same_texts(a: Registry<String>, b: Registry<String>) -> bool {
    &&& a.list().len() == b.list().len()
    &&& forall|k: int|
        0 <= k < a.list().len() ==> (#[trigger] a.list()[k]).0@ == b.list()[k].0@ && a.list()[k].1@
            == b.list()[k].1@
}

proof fn lemma_same_texts(a: Registry<String>, b: Registry<String>)
    requires
        named_texts(a) == named_texts(b),
    ensures
        same_texts(a, b),
{
    let x = named_texts(a);
    let y = named_texts(b);
    assert(x.len() == a.list().len());
    assert(y.len() == b.list().len());
    assert forall|k: int| 0 <= k < a.list().len() implies (#[trigger] a.list()[k]).0@
        == b.list()[k].0@ && a.list()[k].1@ == b.list()[k].1@ by {
        assert(x[k] == y[k]);
    }
}

} // verus!
