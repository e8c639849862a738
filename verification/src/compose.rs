//! The Compose file of a project: which it is, and what it names.

use crate::choice::{ascending, lemma_one_more};
use crate::paths::{ascii_alnum, file_name, is_ascii_alnum, last_name, lower, to_lower};
use crate::text::{chars_of, same, strs};
use vstd::prelude::*;

verus! {

broadcast use vstd::string::group_string_axioms;

/// A project's Compose file, the services and networks that it names, and the network
/// that it gets anyway.
#[derive(Debug)]
pub struct ComposeProject {
    pub path: String,
    pub services: Vec<String>,
    pub declared_networks: Vec<String>,
    pub default_network: String,
}

/// What is read of a Compose file: the names in it, in order.
#[derive(Debug)]
pub struct RawCompose {
    pub name: Option<String>,
    pub services: Vec<String>,
    pub networks: Vec<String>,
}

/// The names that a Compose file may have, the first found counting.
pub open spec fn candidates() -> Seq<Seq<char>> {
    seq!["compose.yaml"@, "compose.yml"@, "docker-compose.yaml"@, "docker-compose.yml"@]
}

fn among(names: &Vec<String>, name: &str) -> (r: bool)
    ensures
        r == strs(names@).contains(name@),
{
    let ghost ns = strs(names@);
    let mut i: usize = 0;
    while i < names.len()
        invariant
            i <= names@.len(),
            ns == strs(names@),
            forall|k: int| 0 <= k < i ==> #[trigger] ns[k] != name@,
        decreases names.len() - i,
    {
        if same(&names[i], name) {
            assert(ns[i as int] == name@);
            return true;
        }
        assert(ns[i as int] != name@);
        i = i + 1;
    }
    false
}

/// The first of the candidates among what is in a project's directory.
pub fn find(present: &Vec<String>) -> (r: Option<&'static str>)
    ensures
        match r {
            Some(name) => exists|i: int|
                0 <= i < candidates().len() && name@ == #[trigger] candidates()[i] && strs(
                    present@,
                ).contains(name@) && forall|k: int|
                    0 <= k < i ==> !strs(present@).contains(#[trigger] candidates()[k]),
            None => forall|k: int|
                0 <= k < candidates().len() ==> !strs(present@).contains(
                    #[trigger] candidates()[k],
                ),
        },
{
    if among(present, "compose.yaml") {
        assert(candidates()[0] == "compose.yaml"@);
        return Some("compose.yaml");
    }
    if among(present, "compose.yml") {
        assert(candidates()[1] == "compose.yml"@);
        return Some("compose.yml");
    }
    if among(present, "docker-compose.yaml") {
        assert(candidates()[2] == "docker-compose.yaml"@);
        return Some("docker-compose.yaml");
    }
    if among(present, "docker-compose.yml") {
        assert(candidates()[3] == "docker-compose.yml"@);
        return Some("docker-compose.yml");
    }
    None
}

/// The characters of the first `n` that a project's name may have.
pub open spec fn name_only(s: Seq<char>, n: int) -> Seq<char>
    decreases n,
{
    if n <= 0 {
        seq![]
    } else if ascii_alnum(s[n - 1]) || s[n - 1] == '_' || s[n - 1] == '-' {
        name_only(s, n - 1).push(s[n - 1])
    } else {
        name_only(s, n - 1)
    }
}

/// A project's name: in lower case, without the characters that it may not have.
pub open spec fn sanitized(name: Seq<char>) -> Seq<char> {
    name_only(lower(name), lower(name).len() as int)
}

/// A project's name: in lower case, without the characters that it may not have.
pub fn sanitize_project_name(name: &str) -> (r: String)
    ensures
        r@ == sanitized(name@),
{
    plain_name(&to_lower(name))
}

/// A name in lower case, without the characters that a project's may not have.
pub fn plain_name(low: &str) -> (r: String)
    ensures
        r@ == name_only(low@, low@.len() as int),
{
    let cs = chars_of(low);
    let mut out = String::new();
    let mut i: usize = 0;
    assert(out@ =~= seq![]);
    while i < cs.len()
        invariant
            i <= cs@.len(),
            cs@ == low@,
            out@ == name_only(cs@, i as int),
        decreases cs.len() - i,
    {
        let c = cs[i];
        if is_ascii_alnum(c) || c == '_' || c == '-' {
            out.push(c);
        }
        i = i + 1;
    }
    out
}

/// The name of a project: its own, or else that of its directory, or else a word.
pub open spec fn project_name(root: Seq<char>, raw: RawCompose) -> Seq<char> {
    match raw.name {
        Some(n) => n@,
        None => match last_name(root) {
            Some(n) => n,
            None => "compose"@,
        },
    }
}

/// What a Compose file names, and the network that its project gets anyway.
pub fn detect(root: &str, path: &str, raw: RawCompose) -> (r: ComposeProject)
    ensures
        r.path@ == path@,
        r.services == raw.services,
        r.declared_networks == raw.networks,
        r.default_network@ == sanitized(project_name(root@, raw)) + "_default"@,
{
    let name = match raw.name {
        Some(n) => n,
        None => match file_name(root) {
            Some(n) => n,
            None => "compose".to_owned(),
        },
    };
    let mut default_network = sanitize_project_name(&name);
    default_network.push_str("_default");
    ComposeProject {
        path: path.to_owned(),
        services: raw.services,
        declared_networks: raw.networks,
        default_network,
    }
}

/// The name of a project keeps letters, digits, underscores and dashes, in their order,
/// and nothing else.
pub proof fn names_keep_plain_characters(s: Seq<char>, n: int) -> (js: Seq<int>)
    requires
        0 <= n <= s.len(),
    ensures
        ascending(js, n),
        forall|i: int|
            0 <= i < n ==> (#[trigger] js.contains(i) <==> 'a' <= s[i] <= 'z' || 'A' <= s[i] <= 'Z'
                || '0' <= s[i] <= '9' || s[i] == '_' || s[i] == '-'),
        name_only(s, n) == Seq::new(js.len(), |k: int| s[js[k]]),
    decreases n,
{
    if n == 0 {
        let js: Seq<int> = seq![];
        assert(name_only(s, n) =~= Seq::new(js.len(), |k: int| s[js[k]]));
        js
    } else {
        let before = names_keep_plain_characters(s, n - 1);
        lemma_one_more(before, n - 1);
        if ascii_alnum(s[n - 1]) || s[n - 1] == '_' || s[n - 1] == '-' {
            let js = before.push(n - 1);
            assert(name_only(s, n) =~= Seq::new(js.len(), |k: int| s[js[k]]));
            js
        } else {
            before
        }
    }
}

} // verus!
