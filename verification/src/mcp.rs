//! Servers of tools that a user has set up: their settings, which of them and of their
//! tools may be used, and what is shown of them.

use crate::registry::Registry;
use crate::search::{at, find, lemma_find, split_once};
use crate::text::{
    lines, pair_texts, push_pair, push_text, same, split_lines, strs, trim, trimmed,
};
use crate::words::{concat, join, joined};
use vstd::prelude::*;

verus! {

broadcast use vstd::string::group_string_axioms;

/// How a server is reached.
#[derive(Debug)]
pub enum McpTransport {
    Stdio { command: String, args: Vec<String>, env: Registry<String> },
    Http { url: String, headers: Registry<String> },
}

/// A server.
#[derive(Debug)]
pub struct McpServer {
    pub description: String,
    pub enabled: bool,
    pub transport: McpTransport,
    /// The tools that may be used; all, where none is named.
    pub tools: Vec<String>,
}

/// The servers by name.
#[derive(Debug)]
pub struct McpConfig {
    pub servers: Registry<McpServer>,
}

// ---------------------------------------------------------------------------
// Pairs
// ---------------------------------------------------------------------------

/// What stands under each name.
pub open spec fn texts(r: Registry<String>) -> Map<Seq<char>, Seq<char>> {
    Map::new(|n: Seq<char>| r.has(n), |n: Seq<char>| r.table()[n]@)
}

/// Why a pair is none.
pub open spec fn pair_error(p: Seq<char>) -> Option<Seq<char>> {
    match find(p, seq!['='], 0) {
        None => Some("expected KEY=VALUE, got `"@ + p + "`"@),
        Some(i) => if i == 0 {
            Some("empty key in `"@ + p + "`"@)
        } else {
            None
        },
    }
}

/// What the first `n` pairs set, each split where its first `=` is.
pub open spec fn pairs_set(ps: Seq<Seq<char>>, n: int) -> Map<Seq<char>, Seq<char>>
    decreases n,
{
    if n <= 0 {
        Map::empty()
    } else {
        let p = ps[n - 1];
        let i = find(p, seq!['='], 0)->0;
        pairs_set(ps, n - 1).insert(p.take(i), p.skip(i + 1))
    }
}

/// Whether none of the first `n` pairs is wrong.
pub open spec fn pairs_fine(ps: Seq<Seq<char>>, n: int) -> bool {
    forall|k: int| 0 <= k < n ==> pair_error(#[trigger] ps[k]) is None
}

/// What pairs of the form `KEY=VALUE` set; where one key is set twice, the last counts.
/// The first that is no such pair is refused.
pub fn parse_kv(pairs: &Vec<String>) -> (r: Result<Registry<String>, String>)
    ensures
        match r {
            Ok(m) => pairs_fine(strs(pairs@), pairs@.len() as int) && texts(m) == pairs_set(
                strs(pairs@),
                pairs@.len() as int,
            ),
            Err(why) => exists|k: int|
                0 <= k < pairs@.len() && pairs_fine(strs(pairs@), k) && #[trigger] pair_error(
                    pairs@[k]@,
                ) == Some(why@),
        },
{
    let mut out: Registry<String> = Registry::new();
    let mut i: usize = 0;
    proof {
        assert(texts(out) =~= Map::empty());
        reveal_strlit("=");
        assert("="@ =~= seq!['=']);
    }
    let ghost ps = strs(pairs@);
    while i < pairs.len()
        invariant
            i <= pairs@.len(),
            "="@ == seq!['='],
            ps == strs(pairs@),
            pairs_fine(ps, i as int),
            texts(out) == pairs_set(ps, i as int),
        decreases pairs.len() - i,
    {
        let p = &pairs[i];
        assert(ps[i as int] == p@);
        proof {
            lemma_find(p@, seq!['='], 0);
        }
        match split_once(p, "=") {
            None => {
                let mut why = "expected KEY=VALUE, got `".to_owned();
                why.push_str(p);
                why.push_str("`");
                assert(pair_error(pairs@[i as int]@) == Some(why@));
                return Err(why);
            },
            Some((k, v)) => {
                if k.as_str().is_empty() {
                    let mut why = "empty key in `".to_owned();
                    why.push_str(p);
                    why.push_str("`");
                    assert(pair_error(pairs@[i as int]@) == Some(why@));
                    return Err(why);
                }
                let ghost before = out;
                let ghost key = k@;
                let ghost value = v@;
                out = out.insert(k, v);
                proof {
                    assert(out.table().dom() =~= before.table().dom().insert(key));
                    assert forall|n: Seq<char>| out.has(n) <==> before.has(n) || n == key by {
                        assert(out.table().dom().contains(n) <==> out.has(n));
                        assert(before.table().dom().contains(n) <==> before.has(n));
                    }
                    assert(texts(out) =~= texts(before).insert(key, value));
                }
            },
        }
        i = i + 1;
    }
    Ok(out)
}

// ---------------------------------------------------------------------------
// Changing the settings
// ---------------------------------------------------------------------------

/// How a new server is to be reached.
#[derive(Debug, Clone, Copy, PartialEq, Eq, Structural)]
pub enum Transport {
    Stdio,
    Http,
}

/// What a new server is made from.
#[derive(Debug)]
pub struct McpAddArgs {
    pub name: String,
    pub transport: Transport,
    pub description: Option<String>,
    pub command: Option<String>,
    pub args: Vec<String>,
    pub env: Vec<String>,
    pub url: Option<String>,
    pub header: Vec<String>,
    pub tools: Vec<String>,
}

/// Why pairs are refused.
pub open spec fn refused_pairs(ps: Seq<Seq<char>>, why: Seq<char>) -> bool {
    exists|k: int|
        0 <= k < ps.len() && pairs_fine(ps, k) && #[trigger] pair_error(ps[k]) == Some(why)
}

/// The pairs are taken, and set this.
pub open spec fn taken_pairs(ps: Seq<Seq<char>>, m: Registry<String>) -> bool {
    pairs_fine(ps, ps.len() as int) && texts(m) == pairs_set(ps, ps.len() as int)
}

/// How the new server is reached, where that is known.
pub open spec fn added_transport(a: McpAddArgs, t: McpTransport) -> bool {
    match a.transport {
        Transport::Stdio => t matches McpTransport::Stdio { command, args, env } && a.command
            == Some(command) && args == a.args && taken_pairs(strs(a.env@), env),
        Transport::Http => t matches McpTransport::Http { url, headers } && a.url == Some(url)
            && taken_pairs(strs(a.header@), headers),
    }
}

/// Why a server cannot be made.
pub open spec fn add_refused(a: McpAddArgs, why: Seq<char>) -> bool {
    match a.transport {
        Transport::Stdio => if a.command is None {
            why == "`--command` is required for a stdio server"@
        } else {
            exists|w: Seq<char>| #[trigger]
                refused_pairs(strs(a.env@), w) && why == "parsing --env: "@ + w
        },
        Transport::Http => if a.url is None {
            why == "`--url` is required for an http server"@
        } else {
            exists|w: Seq<char>| #[trigger]
                refused_pairs(strs(a.header@), w) && why == "parsing --header: "@ + w
        },
    }
}

fn pairs_or(pairs: &Vec<String>, context: &str) -> (r: Result<Registry<String>, String>)
    ensures
        match r {
            Ok(m) => taken_pairs(strs(pairs@), m),
            Err(why) => exists|w: Seq<char>| #[trigger]
                refused_pairs(strs(pairs@), w) && why@ == context@ + w,
        },
{
    match parse_kv(pairs) {
        Ok(m) => Ok(m),
        Err(w) => {
            let mut why = context.to_owned();
            why.push_str(&w);
            proof {
                let ps = strs(pairs@);
                let k = choose|k: int|
                    0 <= k < pairs@.len() && pairs_fine(ps, k) && #[trigger] pair_error(
                        pairs@[k]@,
                    ) == Some(w@);
                assert(pair_error(ps[k]) == Some(w@));
                assert(refused_pairs(ps, w@));
            }
            Err(why)
        },
    }
}

/// The server that the arguments ask for: on, described as said, with the tools named.
pub fn new_server(a: McpAddArgs) -> (r: Result<(String, McpServer), String>)
    ensures
        match r {
            Ok((name, s)) => {
                &&& name == a.name
                &&& s.enabled
                &&& s.tools == a.tools
                &&& s.description@ == match a.description {
                    Some(d) => d@,
                    None => Seq::<char>::empty(),
                }
                &&& added_transport(a, s.transport)
            },
            Err(why) => add_refused(a, why@),
        },
{
    let ghost given = a;
    let transport = match a.transport {
        Transport::Stdio => match a.command {
            None => return Err("`--command` is required for a stdio server".to_owned()),
            Some(command) => match pairs_or(&a.env, "parsing --env: ") {
                Ok(env) => McpTransport::Stdio { command, args: a.args, env },
                Err(why) => return Err(why),
            },
        },
        Transport::Http => match a.url {
            None => return Err("`--url` is required for an http server".to_owned()),
            Some(url) => match pairs_or(&a.header, "parsing --header: ") {
                Ok(headers) => McpTransport::Http { url, headers },
                Err(why) => return Err(why),
            },
        },
    };
    assert(added_transport(given, transport));
    let description = match a.description {
        Some(d) => d,
        None => String::new(),
    };
    Ok((a.name, McpServer { description, enabled: true, transport, tools: a.tools }))
}

/// The settings with one more server, or another in place of the one of that name, and
/// what is said of it.
pub fn add(cfg: McpConfig, name: String, server: McpServer) -> (r: (McpConfig, String))
    ensures
        r.0.servers.table() == cfg.servers.table().insert(name@, server),
        r.1@ == (if cfg.servers.has(name@) {
            "updated"@
        } else {
            "added"@
        }) + " MCP server `"@ + name@ + "`"@,
{
    let existed = cfg.servers.contains(&name);
    let mut said = if existed {
        "updated".to_owned()
    } else {
        "added".to_owned()
    };
    said.push_str(" MCP server `");
    said.push_str(&name);
    said.push_str("`");
    (McpConfig { servers: cfg.servers.insert(name, server) }, said)
}

/// That there is no such server.
pub open spec fn no_server(name: Seq<char>) -> Seq<char> {
    "no MCP server `"@ + name + "`"@
}

fn missing(name: &str) -> (r: String)
    ensures
        r@ == no_server(name@),
{
    let mut why = "no MCP server `".to_owned();
    why.push_str(name);
    why.push_str("`");
    why
}

/// The settings without a server.
pub fn remove(cfg: McpConfig, name: &str) -> (r: Result<McpConfig, String>)
    ensures
        match r {
            Ok(new) => cfg.servers.has(name@) && new.servers.table()
                == cfg.servers.table().remove(name@),
            Err(why) => !cfg.servers.has(name@) && why@ == no_server(name@),
        },
{
    match cfg.servers.position(name) {
        None => Err(missing(name)),
        Some(i) => {
            let (servers, _) = cfg.servers.take_at(i);
            Ok(McpConfig { servers })
        },
    }
}

/// The settings with a server turned on or off, and everything else as it was.
pub fn set_enabled(cfg: McpConfig, name: &str, enabled: bool) -> (r: Result<McpConfig, String>)
    ensures
        match r {
            Ok(new) => cfg.servers.has(name@) && new.servers.table()
                == cfg.servers.table().insert(
                name@,
                (McpServer { enabled, ..cfg.servers.table()[name@] }),
            ),
            Err(why) => !cfg.servers.has(name@) && why@ == no_server(name@),
        },
{
    match cfg.servers.position(name) {
        None => Err(missing(name)),
        Some(i) => {
            let ghost before = cfg.servers;
            let (rest, (key, old)) = cfg.servers.take_at(i);
            let servers = rest.insert(
                key,
                McpServer {
                    description: old.description,
                    enabled,
                    transport: old.transport,
                    tools: old.tools,
                },
            );
            proof {
                assert(before.names()[i as int] == name@);
                assert(old == before.table()[name@]);
                let new = McpServer { enabled, ..before.table()[name@] };
                assert(servers.table() =~= before.table().insert(name@, new));
            }
            Ok(McpConfig { servers })
        },
    }
}

/// The user's servers and, under names that they do not have, the project's.
pub fn with_project(cfg: McpConfig, project: Registry<McpServer>) -> (r: McpConfig)
    ensures
        r.servers.table() == project.table().union_prefer_right(cfg.servers.table()),
{
    let ghost host = cfg.servers.table();
    let ghost all = project;
    let mut servers = cfg.servers;
    let mut rest = project;
    while rest.len() > 0
        invariant
            servers.table() == all.table().remove_keys(rest.table().dom()).union_prefer_right(host),
            rest.table().submap_of(all.table()),
        decreases rest.list().len(),
    {
        let ghost before = rest;
        let ghost kept = servers;
        let (fewer, (name, server)) = rest.take_at(0);
        proof {
            assert(before.names()[0] == name@);
            assert(before.has(name@));
            assert(before.table().dom().contains(name@));
            assert(all.table()[name@] == before.table()[name@]);
        }
        let had = servers.contains(&name);
        if !had {
            assert(server == before.table()[name@]);
            let ghost key = name@;
            servers = servers.insert(name, server);
            assert(!kept.table().dom().contains(key));
            assert(servers.table() =~= all.table().remove_keys(
                fewer.table().dom(),
            ).union_prefer_right(host));
        } else {
            assert(kept.table().dom().contains(name@));
            assert(host.dom().contains(name@));
            assert(servers.table() =~= all.table().remove_keys(
                fewer.table().dom(),
            ).union_prefer_right(host));
        }
        rest = fewer;
    }
    proof {
        assert(rest.table().dom() =~= Set::empty()) by {
            assert forall|n: Seq<char>| !rest.table().dom().contains(n) by {
                assert(rest.names().len() == 0);
            }
        }
        assert(all.table().remove_keys(rest.table().dom()) =~= all.table());
    }
    McpConfig { servers }
}

// ---------------------------------------------------------------------------
// What is shown of the settings
// ---------------------------------------------------------------------------

/// The user's servers and a trusted project's, to try one of them out, with what is said
/// first; or that there is no such server.
pub fn test_server(cfg: McpConfig, project: Registry<McpServer>, name: &str) -> (r: Result<
    (McpConfig, String),
    String,
>)
    ensures
        ({
            let all = project.table().union_prefer_right(cfg.servers.table());
            match r {
                Ok((new, said)) => all.dom().contains(name@) && new.servers.table() == all && said@
                    == "connecting to `"@ + name@ + "`…"@,
                Err(why) => !all.dom().contains(name@) && why@ == no_server(name@)
                    + " (host config, or a trusted .mcp.json)"@,
            }
        }),
{
    let all = with_project(cfg, project);
    if !all.servers.contains(name) {
        let mut why = missing(name);
        why.push_str(" (host config, or a trusted .mcp.json)");
        return Err(why);
    }
    let mut said = "connecting to `".to_owned();
    said.push_str(name);
    said.push_str("`…");
    Ok((all, said))
}

/// What comes of trying a server out: its tools, or that it cannot be reached.
pub fn test_outcome(name: &str, listing: Result<String, String>) -> (r: Result<String, String>)
    ensures
        match listing {
            Ok(tools) => r == Ok::<String, String>(tools),
            Err(e) => r is Err && r->Err_0@ == "could not reach `"@ + name@ + "`: "@ + e@,
        },
{
    match listing {
        Ok(tools) => Ok(tools),
        Err(e) => {
            let mut why = "could not reach `".to_owned();
            why.push_str(name);
            why.push_str("`: ");
            why.push_str(&e);
            Err(why)
        },
    }
}

/// The lines on one of the user's servers.
pub open spec fn server_lines(name: Seq<char>, s: McpServer, label: Seq<char>) -> Seq<Seq<char>> {
    let state = if s.enabled {
        "enabled"@
    } else {
        "disabled"@
    };
    let allow = if s.tools@.len() == 0 {
        ""@
    } else {
        "  tools: "@ + join(strs(s.tools@), ", "@)
    };
    let first = "  "@ + name + "  ["@ + state + "]  "@ + label + allow;
    if s.description@.len() == 0 {
        seq![first]
    } else {
        seq![first, "      "@ + s.description@]
    }
}

/// The lines on the first `n` of the user's servers.
pub open spec fn servers_lines(
    list: Seq<(String, McpServer)>,
    labels: Seq<Seq<char>>,
    n: int,
) -> Seq<Seq<char>>
    decreases n,
{
    if n <= 0 {
        seq![]
    } else {
        servers_lines(list, labels, n - 1) + server_lines(list[n - 1].0@, list[n - 1].1, labels[n - 1])
    }
}

/// The lines on the user's servers.
pub open spec fn host_list(list: Seq<(String, McpServer)>, labels: Seq<Seq<char>>) -> Seq<Seq<char>> {
    if list.len() == 0 {
        seq![
            "no host MCP servers configured (~/.config/cowboy/mcp.yaml)."@,
            "add one: `cowboy mcp add <name> --transport stdio --command … [--arg …]`"@,
            "      or `cowboy mcp add <name> --transport http --url https://…`"@,
        ]
    } else {
        seq!["Host servers (~/.config/cowboy/mcp.yaml):"@] + servers_lines(
            list,
            labels,
            list.len() as int,
        )
    }
}

/// The lines on the user's servers, with a label for how each is reached.
pub fn host_lines(cfg: &McpConfig, labels: &Vec<String>) -> (r: Vec<String>)
    requires
        labels.len() == cfg.servers.list().len(),
    ensures
        strs(r@) == host_list(cfg.servers.list(), strs(labels@)),
{
    let mut out: Vec<String> = Vec::new();
    let n = cfg.servers.len();
    if n == 0 {
        push_text(&mut out, "no host MCP servers configured (~/.config/cowboy/mcp.yaml).".to_owned());
        push_text(
            &mut out,
            "add one: `cowboy mcp add <name> --transport stdio --command … [--arg …]`".to_owned(),
        );
        push_text(
            &mut out,
            "      or `cowboy mcp add <name> --transport http --url https://…`".to_owned(),
        );
        assert(strs(out@) =~= host_list(cfg.servers.list(), strs(labels@)));
        return out;
    }
    let ghost list = cfg.servers.list();
    let ghost ls = strs(labels@);
    let ghost head = seq!["Host servers (~/.config/cowboy/mcp.yaml):"@];
    push_text(&mut out, "Host servers (~/.config/cowboy/mcp.yaml):".to_owned());
    let mut i: usize = 0;
    assert(strs(out@) =~= head + servers_lines(list, ls, 0));
    while i < n
        invariant
            i <= n,
            n == list.len(),
            labels@.len() == n,
            list == cfg.servers.list(),
            ls == strs(labels@),
            strs(out@) == head + servers_lines(list, ls, i as int),
        decreases n - i,
    {
        let s = cfg.servers.value_at(i);
        let mut line = "  ".to_owned();
        line.push_str(cfg.servers.name_at(i));
        line.push_str("  [");
        line.push_str(
            if s.enabled {
                "enabled"
            } else {
                "disabled"
            },
        );
        line.push_str("]  ");
        line.push_str(&labels[i]);
        let mut allow = "".to_owned();
        if s.tools.len() > 0 {
            allow = "  tools: ".to_owned();
            allow.push_str(&joined(&s.tools, ", "));
        }
        line.push_str(&allow);
        let ghost before = strs(out@);
        push_text(&mut out, line);
        if !s.description.as_str().is_empty() {
            let mut more = "      ".to_owned();
            more.push_str(&s.description);
            push_text(&mut out, more);
        }
        proof {
            assert(labels@[i as int]@ == ls[i as int]);
            let added = server_lines(list[i as int].0@, list[i as int].1, ls[i as int]);
            assert(strs(out@) =~= before + added);
            assert(strs(out@) =~= head + servers_lines(list, ls, i + 1));
        }
        i = i + 1;
    }
    out
}

/// What is said of a server, as a word and a text for it. Of settings and headers the
/// names are given and never the values.
pub open spec fn review(s: McpServer) -> Seq<(Seq<char>, Seq<char>)> {
    let middle = match s.transport {
        McpTransport::Stdio { command, args, env } => {
            let run = seq![("runs (stdio)"@, join(seq![command@] + strs(args@), " "@))];
            if env.list().len() == 0 {
                run
            } else {
                run.push(("env"@, join(env.names(), ", "@)))
            }
        },
        McpTransport::Http { url, headers } => {
            let to = seq![("connects to"@, url@)];
            if headers.list().len() == 0 {
                to
            } else {
                to.push(("headers"@, join(headers.names(), ", "@)))
            }
        },
    };
    (seq![("purpose"@, s.description@)] + middle).push(("tools"@, join(strs(s.tools@), ", "@)))
}

/// What is said of a server before it is trusted.
pub fn review_of(s: &McpServer) -> (r: Vec<(String, String)>)
    ensures
        pair_texts(r@) == review(*s),
{
    let mut out: Vec<(String, String)> = Vec::new();
    push_pair(&mut out, "purpose", s.description.clone());
    match &s.transport {
        McpTransport::Stdio { command, args, env } => {
            let mut argv: Vec<String> = Vec::new();
            push_text(&mut argv, command.clone());
            let mut i: usize = 0;
            assert(strs(argv@) =~= seq![command@] + strs(args@).take(0));
            while i < args.len()
                invariant
                    i <= args@.len(),
                    strs(argv@) == seq![command@] + strs(args@).take(i as int),
                decreases args.len() - i,
            {
                push_text(&mut argv, args[i].clone());
                assert(strs(argv@) =~= seq![command@] + strs(args@).take(i + 1));
                i = i + 1;
            }
            assert(strs(args@).take(args@.len() as int) =~= strs(args@));
            push_pair(&mut out, "runs (stdio)", joined(&argv, " "));
            if env.len() > 0 {
                push_pair(&mut out, "env", joined(&env.keys(), ", "));
            }
        },
        McpTransport::Http { url, headers } => {
            push_pair(&mut out, "connects to", url.clone());
            if headers.len() > 0 {
                push_pair(&mut out, "headers", joined(&headers.keys(), ", "));
            }
        },
    }
    push_pair(&mut out, "tools", joined(&s.tools, ", "));
    assert(pair_texts(out@) =~= review(*s));
    out
}

// ---------------------------------------------------------------------------
// Using the servers
// ---------------------------------------------------------------------------

/// The names and descriptions of those of the first `n` that are on.
pub open spec fn enabled(list: Seq<(String, McpServer)>, n: int) -> Seq<(Seq<char>, Seq<char>)>
    decreases n,
{
    if n <= 0 {
        seq![]
    } else if list[n - 1].1.enabled {
        enabled(list, n - 1).push((list[n - 1].0@, list[n - 1].1.description@))
    } else {
        enabled(list, n - 1)
    }
}

/// The first of each pair.
pub open spec fn firsts(ps: Seq<(Seq<char>, Seq<char>)>) -> Seq<Seq<char>> {
    Seq::new(ps.len(), |i: int| ps[i].0)
}

/// The servers that are on, with their descriptions, in the order of their names.
pub fn connected_servers(cfg: &McpConfig) -> (r: Vec<(String, String)>)
    ensures
        pair_texts(r@) == enabled(cfg.servers.list(), cfg.servers.list().len() as int),
{
    let mut out: Vec<(String, String)> = Vec::new();
    let n = cfg.servers.len();
    let mut i: usize = 0;
    assert(pair_texts(out@) =~= seq![]);
    while i < n
        invariant
            i <= n,
            n == cfg.servers.list().len(),
            pair_texts(out@) == enabled(cfg.servers.list(), i as int),
        decreases n - i,
    {
        let s = cfg.servers.value_at(i);
        if s.enabled {
            push_pair(&mut out, cfg.servers.name_at(i), s.description.clone());
        }
        i = i + 1;
    }
    out
}

/// The names of the servers that are on.
pub fn server_names(cfg: &McpConfig) -> (r: Vec<String>)
    ensures
        strs(r@) == firsts(enabled(cfg.servers.list(), cfg.servers.list().len() as int)),
{
    let pairs = connected_servers(cfg);
    let mut out: Vec<String> = Vec::new();
    let mut i: usize = 0;
    let ghost all = firsts(pair_texts(pairs@));
    assert(strs(out@) =~= all.take(0));
    while i < pairs.len()
        invariant
            i <= pairs@.len(),
            all == firsts(pair_texts(pairs@)),
            strs(out@) == all.take(i as int),
        decreases pairs.len() - i,
    {
        push_text(&mut out, pairs[i].0.clone());
        assert(strs(out@) =~= all.take(i + 1));
        i = i + 1;
    }
    assert(all.take(pairs@.len() as int) =~= all);
    out
}

/// Why a server cannot be used.
pub open spec fn server_error(cfg: McpConfig, name: Seq<char>) -> Option<Seq<char>> {
    if !cfg.servers.has(name) {
        Some(
            "no MCP server `"@ + name + "` (configured: "@ + join(
                firsts(enabled(cfg.servers.list(), cfg.servers.list().len() as int)),
                ", "@,
            ) + ")"@,
        )
    } else if !cfg.servers.table()[name].enabled {
        Some("MCP server `"@ + name + "` is disabled"@)
    } else {
        None
    }
}

/// A server by name, where it is on.
pub fn server<'a>(cfg: &'a McpConfig, name: &str) -> (r: Result<&'a McpServer, String>)
    ensures
        match r {
            Ok(s) => server_error(*cfg, name@) is None && *s == cfg.servers.table()[name@],
            Err(why) => server_error(*cfg, name@) == Some(why@),
        },
{
    match cfg.servers.get(name) {
        Some(s) => if s.enabled {
            Ok(s)
        } else {
            let mut why = "MCP server `".to_owned();
            why.push_str(name);
            why.push_str("` is disabled");
            Err(why)
        },
        None => {
            let mut why = "no MCP server `".to_owned();
            why.push_str(name);
            why.push_str("` (configured: ");
            why.push_str(&joined(&server_names(cfg), ", "));
            why.push_str(")");
            Err(why)
        },
    }
}

/// Whether a tool may be used: any, where none is named.
pub open spec fn may_use(allow: Seq<Seq<char>>, tool: Seq<char>) -> bool {
    allow.len() == 0 || allow.contains(tool)
}

/// Whether a tool may be used.
pub fn allowed(allow: &Vec<String>, tool: &str) -> (r: bool)
    ensures
        r == may_use(strs(allow@), tool@),
{
    if allow.len() == 0 {
        return true;
    }
    let ghost names = strs(allow@);
    let mut i: usize = 0;
    while i < allow.len()
        invariant
            i <= allow@.len(),
            names == strs(allow@),
            forall|k: int| 0 <= k < i ==> #[trigger] names[k] != tool@,
        decreases allow.len() - i,
    {
        if same(&allow[i], tool) {
            assert(names[i as int] == tool@);
            return true;
        }
        assert(names[i as int] != tool@);
        i = i + 1;
    }
    false
}

/// A tool as its server presents it.
#[derive(Debug)]
pub struct Tool {
    pub name: String,
    pub description: Option<String>,
    /// The form of its arguments, as indented JSON.
    pub schema: String,
}

/// All that is said of a tool.
pub open spec fn tool_text(t: Tool) -> Seq<char> {
    let head = "\n## "@ + t.name@ + "\n"@;
    let about = match t.description {
        Some(d) => head + d@ + "\n"@,
        None => head,
    };
    about + "input schema:\n"@ + t.schema@ + "\n"@
}

/// All that is said of those of the first `n` tools that may be used.
pub open spec fn tools_text(ts: Seq<Tool>, allow: Seq<Seq<char>>, n: int) -> Seq<char>
    decreases n,
{
    if n <= 0 {
        seq![]
    } else if may_use(allow, ts[n - 1].name@) {
        tools_text(ts, allow, n - 1) + tool_text(ts[n - 1])
    } else {
        tools_text(ts, allow, n - 1)
    }
}

/// Whether any tool may be used.
pub open spec fn any_allowed(ts: Seq<Tool>, allow: Seq<Seq<char>>, n: int) -> bool {
    exists|k: int| 0 <= k < n && may_use(allow, #[trigger] ts[k].name@)
}

/// How a tool of the server is called.
pub open spec fn call_hint(name: Seq<char>) -> Seq<char> {
    "\nCall one with: mcp { \"action\": \"call\", \"server\": \""@ + name
        + "\", \"tool\": \"<name>\", \"arguments\": { … } }\n"@
}

/// The tools of a server, with the form of their arguments.
pub open spec fn full_listing(name: Seq<char>, allow: Seq<Seq<char>>, ts: Seq<Tool>) -> Seq<char> {
    let n = ts.len() as int;
    let a = "# MCP server `"@ + name + "` tools\n"@ + tools_text(ts, allow, n);
    let b = if any_allowed(ts, allow, n) {
        a
    } else {
        a + "\n(no tools exposed)\n"@
    };
    b + call_hint(name)
}

/// The tools of a server that may be used, with the form of their arguments.
pub fn list_one(name: &str, allow: &Vec<String>, tools: &Vec<Tool>) -> (r: String)
    ensures
        r@ == full_listing(name@, strs(allow@), tools@),
{
    let mut out = "# MCP server `".to_owned();
    out.push_str(name);
    out.push_str("` tools\n");
    let ghost head = out@;
    let ghost al = strs(allow@);
    let mut shown = false;
    let mut i: usize = 0;
    assert(head + seq![] =~= head);
    while i < tools.len()
        invariant
            i <= tools@.len(),
            al == strs(allow@),
            out@ == head + tools_text(tools@, al, i as int),
            shown == any_allowed(tools@, al, i as int),
        decreases tools.len() - i,
    {
        let t = &tools[i];
        if allowed(allow, &t.name) {
            shown = true;
            let mut text = "\n## ".to_owned();
            text.push_str(&t.name);
            text.push_str("\n");
            match &t.description {
                Some(d) => {
                    text.push_str(d);
                    text.push_str("\n");
                },
                None => {},
            }
            text.push_str("input schema:\n");
            text.push_str(&t.schema);
            text.push_str("\n");
            proof {
                assert(text@ == tool_text(tools@[i as int]));
                let b = tools_text(tools@, al, i as int);
                assert(head + b + text@ =~= head + (b + text@));
                assert(may_use(al, tools@[i as int].name@));
            }
            out.push_str(&text);
        }
        i = i + 1;
    }
    if !shown {
        out.push_str("\n(no tools exposed)\n");
    }
    let mut hint = "\nCall one with: mcp { \"action\": \"call\", \"server\": \"".to_owned();
    hint.push_str(name);
    hint.push_str("\", \"tool\": \"<name>\", \"arguments\": { … } }\n");
    out.push_str(&hint);
    out
}

/// The first line of a description, without the white space around it.
pub open spec fn first_line(d: Option<String>) -> Seq<char> {
    match d {
        Some(s) => if lines(s@).len() == 0 {
            seq![]
        } else {
            trim(lines(s@)[0])
        },
        None => seq![],
    }
}

/// A line for each of the first `n` tools that may be used.
pub open spec fn short_lines(ts: Seq<Tool>, allow: Seq<Seq<char>>, n: int) -> Seq<char>
    decreases n,
{
    if n <= 0 {
        seq![]
    } else if may_use(allow, ts[n - 1].name@) {
        short_lines(ts, allow, n - 1) + ("  - "@ + ts[n - 1].name@ + ": "@ + first_line(
            ts[n - 1].description,
        ) + "\n"@)
    } else {
        short_lines(ts, allow, n - 1)
    }
}

/// The tools of a server that may be used, a line each.
pub fn list_one_compact(name: &str, allow: &Vec<String>, tools: &Vec<Tool>) -> (r: String)
    ensures
        r@ == "## "@ + name@ + "\n"@ + short_lines(tools@, strs(allow@), tools@.len() as int),
{
    let mut out = "## ".to_owned();
    out.push_str(name);
    out.push_str("\n");
    let ghost head = out@;
    let ghost al = strs(allow@);
    let mut i: usize = 0;
    assert(head + seq![] =~= head);
    while i < tools.len()
        invariant
            i <= tools@.len(),
            al == strs(allow@),
            out@ == head + short_lines(tools@, al, i as int),
        decreases tools.len() - i,
    {
        let t = &tools[i];
        if allowed(allow, &t.name) {
            let desc = match &t.description {
                Some(d) => {
                    let ls = split_lines(d);
                    assert(strs(ls@).len() == ls@.len());
                    if ls.len() == 0 {
                        String::new()
                    } else {
                        assert(strs(ls@)[0] == ls@[0]@);
                        trimmed(&ls[0])
                    }
                },
                None => String::new(),
            };
            assert(desc@ =~= first_line(tools@[i as int].description));
            let mut line = "  - ".to_owned();
            line.push_str(&t.name);
            line.push_str(": ");
            line.push_str(&desc);
            line.push_str("\n");
            proof {
                let b = short_lines(tools@, al, i as int);
                assert(head + b + line@ =~= head + (b + line@));
            }
            out.push_str(&line);
        }
        i = i + 1;
    }
    out
}

/// What came of asking a server for its tools.
#[derive(Debug)]
pub struct Asked {
    pub name: String,
    pub answer: Result<String, String>,
}

/// What is shown of one server asked.
pub open spec fn asked_text(a: Asked) -> Seq<char> {
    match a.answer {
        Ok(text) => text@,
        Err(why) => "## "@ + a.name@ + "\n  (unreachable: "@ + why@ + ")\n"@,
    }
}

/// What is shown of the first `n` servers asked.
pub open spec fn asked_texts(all: Seq<Asked>, n: int) -> Seq<char>
    decreases n,
{
    if n <= 0 {
        seq![]
    } else {
        asked_texts(all, n - 1) + asked_text(all[n - 1])
    }
}

/// What is shown of the tools of all servers that are on: one that cannot be reached
/// does not keep the others from being shown.
pub fn overview(all: &Vec<Asked>) -> (r: String)
    ensures
        r@ == ({
            let t = asked_texts(all@, all@.len() as int);
            if t.len() == 0 {
                "no MCP servers are enabled."@
            } else {
                t
            }
        }),
{
    let mut out = String::new();
    let mut i: usize = 0;
    assert(out@ =~= seq![]);
    while i < all.len()
        invariant
            i <= all@.len(),
            out@ == asked_texts(all@, i as int),
        decreases all.len() - i,
    {
        let a = &all[i];
        match &a.answer {
            Ok(text) => out.push_str(text),
            Err(why) => {
                let mut text = "## ".to_owned();
                text.push_str(&a.name);
                text.push_str("\n  (unreachable: ");
                text.push_str(why);
                text.push_str(")\n");
                out.push_str(&text);
            },
        }
        i = i + 1;
    }
    if out.as_str().is_empty() {
        "no MCP servers are enabled.".to_owned()
    } else {
        out
    }
}

/// What is given to a tool.
#[derive(Debug)]
pub enum Arguments {
    /// An object, as JSON.
    Object(String),
    /// Nothing.
    Null,
    /// Anything else, as JSON.
    Other(String),
}

/// Why a call is refused before a server is asked anything.
pub open spec fn call_error(
    cfg: McpConfig,
    name: Seq<char>,
    tool: Seq<char>,
    arguments: Option<Arguments>,
) -> Option<Seq<char>> {
    if server_error(cfg, name) is Some {
        server_error(cfg, name)
    } else {
        let allow = strs(cfg.servers.table()[name].tools@);
        if !may_use(allow, tool) {
            Some(
                "tool `"@ + tool + "` is not in `"@ + name + "`'s allowlist ("@ + join(allow, ", "@)
                    + ")"@,
            )
        } else {
            match arguments {
                Some(Arguments::Other(text)) => Some(
                    "`arguments` must be a JSON object, got: "@ + text@,
                ),
                _ => None,
            }
        }
    }
}

/// What is handed to a tool of a server that is on and allows it: an object, or nothing.
pub fn check_call(
    cfg: &McpConfig,
    name: &str,
    tool: &str,
    arguments: Option<Arguments>,
) -> (r: Result<Option<String>, String>)
    ensures
        match r {
            Ok(given) => call_error(*cfg, name@, tool@, arguments) is None && given
                == match arguments {
                Some(Arguments::Object(m)) => Some(m),
                _ => None,
            },
            Err(why) => call_error(*cfg, name@, tool@, arguments) == Some(why@),
        },
{
    let s = match server(cfg, name) {
        Ok(s) => s,
        Err(why) => return Err(why),
    };
    let fine = allowed(&s.tools, tool);
    if !fine {
        let mut why = "tool `".to_owned();
        why.push_str(tool);
        why.push_str("` is not in `");
        why.push_str(name);
        why.push_str("`'s allowlist (");
        why.push_str(&joined(&s.tools, ", "));
        why.push_str(")");
        return Err(why);
    }
    match arguments {
        Some(Arguments::Object(m)) => Ok(Some(m)),
        Some(Arguments::Null) | None => Ok(None),
        Some(Arguments::Other(text)) => {
            let mut why = "`arguments` must be a JSON object, got: ".to_owned();
            why.push_str(&text);
            Err(why)
        },
    }
}

/// What a tool answered, as one text.
pub open spec fn result_text(
    parts: Seq<Seq<char>>,
    structured: Option<String>,
    is_error: Option<bool>,
) -> Seq<char> {
    let body = if parts.len() == 0 {
        match structured {
            Some(v) => v@,
            None => "(tool returned no textual content)"@,
        }
    } else {
        join(parts, "\n"@)
    };
    if is_error == Some(true) {
        "[tool reported an error]\n"@ + body
    } else {
        body
    }
}

/// What a tool answered, as one text: its texts, or else what it gave in a form of its
/// own, as indented JSON.
pub fn render_result(parts: &Vec<String>, structured: &Option<String>, is_error: Option<bool>) -> (r:
    String)
    ensures
        r@ == result_text(strs(parts@), *structured, is_error),
{
    let body = if parts.len() == 0 {
        match structured {
            Some(v) => v.clone(),
            None => "(tool returned no textual content)".to_owned(),
        }
    } else {
        joined(parts, "\n")
    };
    match is_error {
        Some(true) => {
            let mut out = "[tool reported an error]\n".to_owned();
            out.push_str(&body);
            out
        },
        _ => body,
    }
}

/// A server that is off, and a tool that its server does not allow, are never called.
pub proof fn only_allowed_tools_are_called(
    cfg: McpConfig,
    name: Seq<char>,
    tool: Seq<char>,
    arguments: Option<Arguments>,
)
    requires
        call_error(cfg, name, tool, arguments) is None,
    ensures
        cfg.servers.has(name),
        cfg.servers.table()[name].enabled,
        may_use(strs(cfg.servers.table()[name].tools@), tool),
        !(arguments matches Some(Arguments::Other(_))),
{
}

/// A call is let through exactly where the server is configured and enabled, the tool is
/// on its list or the list is empty, and the arguments are an object or absent.
pub proof fn calls_are_checked(
    cfg: McpConfig,
    name: Seq<char>,
    tool: Seq<char>,
    arguments: Option<Arguments>,
)
    ensures
        call_error(cfg, name, tool, arguments) is None <==> {
            &&& cfg.servers.has(name)
            &&& cfg.servers.table()[name].enabled
            &&& cfg.servers.table()[name].tools@.len() == 0 || strs(
                cfg.servers.table()[name].tools@,
            ).contains(tool)
            &&& !(arguments matches Some(Arguments::Other(_)))
        },
{
    assert(strs(cfg.servers.table()[name].tools@).len() == cfg.servers.table()[name].tools@.len());
}

/// The servers that are connected to are those that are enabled, each once and in order.
pub proof fn enabled_servers_are_connected(list: Seq<(String, McpServer)>, n: int) -> (js: Seq<int>)
    requires
        0 <= n <= list.len(),
    ensures
        crate::choice::ascending(js, n),
        forall|i: int| 0 <= i < n ==> (#[trigger] js.contains(i) <==> list[i].1.enabled),
        enabled(list, n) == Seq::new(
            js.len(),
            |k: int| (list[js[k]].0@, list[js[k]].1.description@),
        ),
    decreases n,
{
    if n == 0 {
        let js: Seq<int> = seq![];
        assert(enabled(list, n) =~= Seq::new(
            js.len(),
            |k: int| (list[js[k]].0@, list[js[k]].1.description@),
        ));
        js
    } else {
        let before = enabled_servers_are_connected(list, n - 1);
        crate::choice::lemma_one_more(before, n - 1);
        if list[n - 1].1.enabled {
            let js = before.push(n - 1);
            assert(enabled(list, n) =~= Seq::new(
                js.len(),
                |k: int| (list[js[k]].0@, list[js[k]].1.description@),
            ));
            js
        } else {
            before
        }
    }
}

/// The tools that a server's listing shows are those that may be called: the ones on its
/// list, or all where the list is empty, each once and in order.
pub proof fn callable_tools_are_listed(ts: Seq<Tool>, allow: Seq<Seq<char>>, n: int) -> (js: Seq<int>)
    requires
        0 <= n <= ts.len(),
    ensures
        crate::choice::ascending(js, n),
        forall|i: int|
            0 <= i < n ==> (#[trigger] js.contains(i) <==> allow.len() == 0 || allow.contains(
                ts[i].name@,
            )),
        tools_text(ts, allow, n) == concat(Seq::new(js.len(), |k: int| tool_text(ts[js[k]]))),
        short_lines(ts, allow, n) == concat(
            Seq::new(
                js.len(),
                |k: int|
                    "  - "@ + ts[js[k]].name@ + ": "@ + first_line(ts[js[k]].description) + "\n"@,
            ),
        ),
    decreases n,
{
    if n == 0 {
        let js: Seq<int> = seq![];
        assert(Seq::new(js.len(), |k: int| tool_text(ts[js[k]])) =~= seq![]);
        assert(Seq::new(
            js.len(),
            |k: int|
                "  - "@ + ts[js[k]].name@ + ": "@ + first_line(ts[js[k]].description) + "\n"@,
        ) =~= seq![]);
        js
    } else {
        let before = callable_tools_are_listed(ts, allow, n - 1);
        crate::choice::lemma_one_more(before, n - 1);
        if may_use(allow, ts[n - 1].name@) {
            let js = before.push(n - 1);
            let full = Seq::new(js.len(), |k: int| tool_text(ts[js[k]]));
            let short = Seq::new(
                js.len(),
                |k: int|
                    "  - "@ + ts[js[k]].name@ + ": "@ + first_line(ts[js[k]].description) + "\n"@,
            );
            assert(full.drop_last() =~= Seq::new(before.len(), |k: int| tool_text(ts[before[k]])));
            assert(short.drop_last() =~= Seq::new(
                before.len(),
                |k: int|
                    "  - "@ + ts[before[k]].name@ + ": "@ + first_line(ts[before[k]].description)
                        + "\n"@,
            ));
            js
        } else {
            before
        }
    }
}

proof fn lemma_key_end(k: Seq<char>, v: Seq<char>)
    requires
        !k.contains('='),
    ensures
        find(k + seq!['='] + v, seq!['='], 0) == Some(k.len() as int),
{
    let p = k + seq!['='] + v;
    let eq = seq!['='];
    lemma_find(p, eq, 0);
    assert(p.subrange(k.len() as int, 1int + k.len()) =~= eq);
    assert(at(p, eq, k.len() as int));
    let i = find(p, eq, 0)->0;
    if i < k.len() {
        assert(p.subrange(i, i + 1)[0] == k[i]);
        assert(k.contains(k[i]));
    }
}

/// `KEY=VALUE` sets the key to the value, which is all that follows the first `=`; of
/// two that set one key the later counts.
pub proof fn pairs_are_read(ps: Seq<Seq<char>>, n: int, j: int, k: Seq<char>, v: Seq<char>)
    requires
        0 <= j < n <= ps.len(),
        ps[j] == k + seq!['='] + v,
        k.len() > 0,
        !k.contains('='),
        pairs_fine(ps, n),
        forall|m: int| j < m < n ==> !at(#[trigger] ps[m], k + seq!['='], 0),
    ensures
        pair_error(ps[j]) is None,
        pairs_set(ps, n).dom().contains(k),
        pairs_set(ps, n)[k] == v,
    decreases n,
{
    lemma_key_end(k, v);
    let p = ps[n - 1];
    assert(pair_error(p) is None);
    if j == n - 1 {
        assert(p.take(k.len() as int) =~= k);
        assert(p.skip(1int + k.len()) =~= v);
    } else {
        pairs_are_read(ps, n - 1, j, k, v);
        let eq = seq!['='];
        let i = find(p, eq, 0)->0;
        if p.take(i) == k {
            assert(!at(ps[n - 1], k + eq, 0));
            lemma_find(p, eq, 0);
            if find(p, eq, 0) is Some {
                assert(p.subrange(i, i + 1) == eq);
                assert(p[i] == p.subrange(i, i + 1)[0]);
                assert(p.subrange(0, i + 1) =~= k + eq);
            }
        }
    }
}

/// What a tool gave is shown as it is, its texts a line each, and an error is marked as
/// one.
pub proof fn errors_are_marked(
    parts: Seq<Seq<char>>,
    structured: Option<String>,
    is_error: Option<bool>,
)
    ensures
        is_error == Some(true) ==> result_text(parts, structured, is_error)
            == "[tool reported an error]\n"@ + result_text(parts, structured, None),
        is_error != Some(true) && parts.len() > 0 ==> result_text(parts, structured, is_error)
            == join(parts, "\n"@),
        is_error != Some(true) && parts.len() == 0 && structured is Some ==> result_text(
            parts,
            structured,
            is_error,
        ) == (structured->0)@,
{
}

} // verus!
