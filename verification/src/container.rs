//! Containers: what is asked of Docker for one, and how the output of a command that
//! runs in one is taken apart.

use crate::text::{chars_of, is_digit, is_ws, string_of, strs, trim, trimmed,
    trimming_leaves_the_middle};
use crate::words::dec;
use vstd::prelude::*;

verus! {

broadcast use vstd::string::group_string_axioms;

// ---------------------------------------------------------------------------
// Copies
// ---------------------------------------------------------------------------

/// A copy of a list of texts.
pub fn copied(v: &Vec<String>) -> (r: Vec<String>)
    ensures
        r@ == v@,
{
    let mut out: Vec<String> = Vec::new();
    let mut i: usize = 0;
    while i < v.len()
        invariant
            i <= v@.len(),
            out@ == v@.take(i as int),
        decreases v.len() - i,
    {
        out.push(v[i].clone());
        i = i + 1;
        assert(v@.take(i as int) =~= v@.take(i - 1).push(v@[i - 1]));
    }
    assert(v@.take(v@.len() as int) =~= v@);
    out
}

/// A copy of a list of texts, or nothing where it is empty.
pub open spec fn unless_empty(v: Seq<String>) -> Option<Seq<String>> {
    if v.len() == 0 {
        None
    } else {
        Some(v)
    }
}

/// What an optional list holds.
pub open spec fn opt_list(v: Option<Vec<String>>) -> Option<Seq<String>> {
    match v {
        Some(l) => Some(l@),
        None => None,
    }
}

fn copied_unless_empty(v: &Vec<String>) -> (r: Option<Vec<String>>)
    ensures
        opt_list(r) == unless_empty(v@),
{
    if v.len() == 0 {
        None
    } else {
        Some(copied(v))
    }
}

/// A text, unless it is empty.
pub fn non_empty(s: &str) -> (r: Option<String>)
    ensures
        s@.len() == 0 ==> r is None,
        s@.len() > 0 ==> r is Some && (r->0)@ == s@,
{
    if s.is_empty() {
        None
    } else {
        Some(s.to_owned())
    }
}

// ---------------------------------------------------------------------------
// Scripts
// ---------------------------------------------------------------------------

/// The shell that ends a command: it signals the recorded process group, then sweeps
/// for whatever still carries the command's tag, first politely and then not, and
/// removes the pid file.
pub open spec fn kill_script(pidfile: Seq<char>, tag: Seq<char>) -> Seq<char> {
    "p=$(cat "@ + pidfile + " 2>/dev/null); [ -n \"$p\" ] && kill -TERM -\"$p\" 2>/dev/null; for e in /proc/[0-9]*/environ; do grep -qz 'COWBOY_EXEC_TAG="@ + tag + "' \"$e\" 2>/dev/null && kill -TERM \"$(basename \"$(dirname \"$e\")\")\" 2>/dev/null; done; sleep 1; [ -n \"$p\" ] && kill -KILL -\"$p\" 2>/dev/null; for e in /proc/[0-9]*/environ; do grep -qz 'COWBOY_EXEC_TAG="@ + tag + "' \"$e\" 2>/dev/null && kill -KILL \"$(basename \"$(dirname \"$e\")\")\" 2>/dev/null; done; rm -f "@ + pidfile + " 2>/dev/null; true"@
}

/// The shell that ends a command.
pub fn kill_exec_script(pidfile: &str, tag: &str) -> (r: String)
    ensures
        r@ == kill_script(pidfile@, tag@),
{
    let mut out = "p=$(cat ".to_owned();
    out.push_str(pidfile);
    out.push_str(" 2>/dev/null); [ -n \"$p\" ] && kill -TERM -\"$p\" 2>/dev/null; for e in /proc/[0-9]*/environ; do grep -qz 'COWBOY_EXEC_TAG=");
    out.push_str(tag);
    out.push_str("' \"$e\" 2>/dev/null && kill -TERM \"$(basename \"$(dirname \"$e\")\")\" 2>/dev/null; done; sleep 1; [ -n \"$p\" ] && kill -KILL -\"$p\" 2>/dev/null; for e in /proc/[0-9]*/environ; do grep -qz 'COWBOY_EXEC_TAG=");
    out.push_str(tag);
    out.push_str("' \"$e\" 2>/dev/null && kill -KILL \"$(basename \"$(dirname \"$e\")\")\" 2>/dev/null; done; rm -f ");
    out.push_str(pidfile);
    out.push_str(" 2>/dev/null; true");
    out
}

/// Where a command's process group is recorded.
pub fn exec_pidfile(tag: &str) -> (r: String)
    ensures
        r@ == "/tmp/cowboy-exec-"@ + tag@ + ".pgid"@,
{
    let mut out = "/tmp/cowboy-exec-".to_owned();
    out.push_str(tag);
    out.push_str(".pgid");
    out
}

/// The shell that runs a command in a process group of its own and records it.
pub fn exec_wrapper(pidfile: &str) -> (r: String)
    ensures
        r@ == "setsid sh -c 'echo $$ > "@ + pidfile@ + "; sh -c \"$COWBOY_CMD\"; r=$?; rm -f "@ + pidfile@ + "; exit $r' 2>&1"@,
{
    let mut out = "setsid sh -c 'echo $$ > ".to_owned();
    out.push_str(pidfile);
    out.push_str("; sh -c \"$COWBOY_CMD\"; r=$?; rm -f ");
    out.push_str(pidfile);
    out.push_str("; exit $r' 2>&1");
    out
}

/// Seconds after which a command is ended: a day where none are given.
pub fn exec_timeout(secs: u64) -> (r: u64)
    ensures
        r == if secs == 0 {
            86400
        } else {
            secs
        },
{
    if secs == 0 {
        86400
    } else {
        secs
    }
}

/// A command to run in a container.
#[derive(Debug)]
pub struct ExecBody {
    pub cmd: Vec<String>,
    pub env: Vec<String>,
    pub working_dir: Option<String>,
    pub user: Option<String>,
    pub attach_stdin: bool,
}

/// A text that is there unless it is empty.
pub open spec fn text_unless_empty(r: Option<String>, s: Seq<char>) -> bool {
    if s.len() == 0 {
        r is None
    } else {
        r is Some && (r->0)@ == s
    }
}

/// The request to run a command as it is given.
pub fn exec_body(workdir: &str, user: &str, argv: &Vec<String>, stdin: bool) -> (r: ExecBody)
    ensures
        strs(r.cmd@) == strs(argv@),
        r.env@.len() == 0,
        text_unless_empty(r.working_dir, workdir@),
        text_unless_empty(r.user, user@),
        r.attach_stdin == stdin,
{
    ExecBody {
        cmd: copied(argv),
        env: Vec::new(),
        working_dir: non_empty(workdir),
        user: non_empty(user),
        attach_stdin: stdin,
    }
}

/// The request to run a command whose output is streamed: in a process group of its own
/// that is recorded under `tag`, the command itself handed over in a variable, and the
/// tag in another that every process it starts inherits.
pub fn stream_body(tag: &str, workdir: &str, user: &str, command: &str) -> (r: ExecBody)
    ensures
        strs(r.cmd@) == seq![
            "sh"@,
            "-c"@,
            "setsid sh -c 'echo $$ > "@ + ("/tmp/cowboy-exec-"@ + tag@ + ".pgid"@)
                + "; sh -c \"$COWBOY_CMD\"; r=$?; rm -f "@ + ("/tmp/cowboy-exec-"@ + tag@
                + ".pgid"@) + "; exit $r' 2>&1"@,
        ],
        strs(r.env@) == seq!["COWBOY_CMD="@ + command@, "COWBOY_EXEC_TAG="@ + tag@],
        text_unless_empty(r.working_dir, workdir@),
        text_unless_empty(r.user, user@),
        !r.attach_stdin,
{
    let mut cmd: Vec<String> = Vec::new();
    let wrapper = exec_wrapper(&exec_pidfile(tag));
    let ghost w = wrapper@;
    cmd.push("sh".to_owned());
    cmd.push("-c".to_owned());
    cmd.push(wrapper);
    assert(strs(cmd@) =~= seq!["sh"@, "-c"@, w]);
    let mut a = "COWBOY_CMD=".to_owned();
    a.push_str(command);
    let mut b = "COWBOY_EXEC_TAG=".to_owned();
    b.push_str(tag);
    let mut env: Vec<String> = Vec::new();
    env.push(a);
    env.push(b);
    assert(strs(env@) =~= seq![a@, b@]);
    ExecBody {
        cmd,
        env,
        working_dir: non_empty(workdir),
        user: non_empty(user),
        attach_stdin: false,
    }
}

// ---------------------------------------------------------------------------
// What a container is made from
// ---------------------------------------------------------------------------

/// A path of the host that a container sees.
#[derive(Debug, Clone, PartialEq, Eq)]
pub struct BindMount {
    pub source: String,
    pub target: String,
    pub read_only: bool,
}

impl BindMount {
    /// A mount that can be written to.
    pub fn rw(source: &str, target: &str) -> (r: Self)
        ensures
            r.source@ == source@,
            r.target@ == target@,
            !r.read_only,
    {
        BindMount { source: source.to_owned(), target: target.to_owned(), read_only: false }
    }

    /// A mount that can only be read.
    pub fn ro(source: &str, target: &str) -> (r: Self)
        ensures
            r.source@ == source@,
            r.target@ == target@,
            r.read_only,
    {
        BindMount { source: source.to_owned(), target: target.to_owned(), read_only: true }
    }

    /// The mount as Docker is told it.
    pub open spec fn arg(&self) -> Seq<char> {
        if self.read_only {
            self.source@ + ":"@ + self.target@ + ":ro"@
        } else {
            self.source@ + ":"@ + self.target@
        }
    }

    /// The mount as Docker is told it.
    pub fn to_arg(&self) -> (r: String)
        ensures
            r@ == self.arg(),
    {
        let mut out = self.source.clone();
        out.push_str(":");
        out.push_str(&self.target);
        if self.read_only {
            out.push_str(":ro");
        }
        out
    }
}

/// A container: the agent's, the gateway's, or a helper that runs once.
#[derive(Debug)]
pub struct ContainerSpec {
    pub name: String,
    pub image: String,
    pub workdir: String,
    pub mounts: Vec<BindMount>,
    /// Environment variables that are no secrets.
    pub env: Vec<(String, String)>,
    /// The network it joins, or the container whose network it shares.
    pub network: Option<String>,
    /// Its address in that network.
    pub ip: Option<String>,
    pub memory: Option<String>,
    /// Processors, in billionths.
    pub nano_cpus: Option<i64>,
    pub cap_drop: Vec<String>,
    pub cap_add: Vec<String>,
    pub sysctls: Vec<(String, String)>,
    pub dns: Vec<String>,
    /// Names and addresses it knows besides.
    pub extra_hosts: Vec<String>,
    /// User and group it runs as.
    pub user: Option<String>,
    pub security_opt: Vec<String>,
    /// Most processes it may have.
    pub pids_limit: Option<u32>,
    pub entrypoint: Option<String>,
    /// What it runs, in place of staying alive.
    pub keep_alive: Option<Vec<String>>,
}

impl Default for ContainerSpec {
    fn default() -> (r: ContainerSpec)
        ensures
            r.name@.len() == 0,
            r.image@.len() == 0,
            r.workdir@.len() == 0,
            r.mounts@.len() == 0,
            r.env@.len() == 0,
            r.network is None,
            r.ip is None,
            r.memory is None,
            r.nano_cpus is None,
            r.cap_drop@.len() == 0,
            r.cap_add@.len() == 0,
            r.sysctls@.len() == 0,
            r.dns@.len() == 0,
            r.extra_hosts@.len() == 0,
            r.user is None,
            r.security_opt@.len() == 0,
            r.pids_limit is None,
            r.entrypoint is None,
            r.keep_alive is None,
    {
        ContainerSpec {
            name: String::new(),
            image: String::new(),
            workdir: String::new(),
            mounts: Vec::new(),
            env: Vec::new(),
            network: None,
            ip: None,
            memory: None,
            nano_cpus: None,
            cap_drop: Vec::new(),
            cap_add: Vec::new(),
            sysctls: Vec::new(),
            dns: Vec::new(),
            extra_hosts: Vec::new(),
            user: None,
            security_opt: Vec::new(),
            pids_limit: None,
            entrypoint: None,
            keep_alive: None,
        }
    }
}

/// A network.
#[derive(Debug, Clone, PartialEq, Eq)]
pub struct NetworkSpec {
    pub name: String,
    /// Whether it has no route to the outside.
    pub internal: bool,
    pub subnet: Option<String>,
    pub gateway: Option<String>,
}

/// What a command came to.
#[derive(Debug, Clone, Copy, PartialEq, Eq, Structural)]
pub struct ExecResult {
    pub exit_code: i32,
}

/// Whether a container exists and runs.
#[derive(Debug, Clone, Copy, PartialEq, Eq, Structural)]
pub enum ContainerState {
    Absent,
    Running,
    Stopped,
}

// ---------------------------------------------------------------------------
// Image references
// ---------------------------------------------------------------------------

/// The colon before an image's tag: the last one, where no slash follows it.
pub open spec fn tag_colon(image: Seq<char>, i: int) -> bool {
    &&& 0 <= i < image.len()
    &&& image[i] == ':'
    &&& forall|k: int| i < k < image.len() ==> #[trigger] image[k] != ':' && image[k] != '/'
}

/// An image reference in two: the repository, and the tag or `latest`. The port of a
/// registry is no tag.
pub fn split_ref(image: &str) -> (r: (String, String))
    ensures
        forall|i: int| #[trigger]
            tag_colon(image@, i) ==> r.0@ == image@.take(i) && r.1@ == image@.skip(i + 1),
        (forall|i: int| !#[trigger] tag_colon(image@, i)) ==> r.0@ == image@ && r.1@ == "latest"@,
{
    let cs = chars_of(image);
    let mut i: usize = cs.len();
    while i > 0
        invariant
            i <= cs@.len(),
            cs@ == image@,
            forall|k: int| i <= k < cs@.len() ==> #[trigger] image@[k] != ':' && image@[k] != '/',
        decreases i,
    {
        let c = cs[i - 1];
        if c == ':' {
            assert(tag_colon(image@, i - 1));
            assert forall|k: int| #[trigger] tag_colon(image@, k) implies k == i - 1 by {
                if k < i - 1 {
                    assert(image@[i - 1] != ':');
                }
            }
            let a = string_of(&cs, 0, i - 1);
            let b = string_of(&cs, i, cs.len());
            assert(a@ =~= image@.take(i - 1));
            assert(b@ =~= image@.skip(i as int));
            return (a, b);
        }
        if c == '/' {
            assert forall|k: int| !#[trigger] tag_colon(image@, k) by {
                if tag_colon(image@, k) && k < i - 1 {
                    assert(image@[i - 1] != '/');
                }
            }
            return (image.to_owned(), "latest".to_owned());
        }
        i = i - 1;
    }
    (image.to_owned(), "latest".to_owned())
}

// ---------------------------------------------------------------------------
// Memory sizes
// ---------------------------------------------------------------------------

/// The greatest whole number up to which every whole number is a double-precision
/// number too.
pub const EXACT_WHOLE: u128 = 9007199254740992;

/// A size of memory.
#[derive(Debug, PartialEq, Eq)]
pub enum Memory {
    /// So many bytes.
    Bytes(i64),
    /// A number that is not written as a plain whole number, to be multiplied.
    Number { number: String, multiplier: i64 },
}

/// Only decimal digits, at least one.
pub open spec fn all_digits(s: Seq<char>) -> bool {
    s.len() > 0 && forall|i: int| 0 <= i < s.len() ==> is_digit(#[trigger] s[i])
}

/// The number that decimal digits write.
pub open spec fn value(s: Seq<char>) -> nat
    decreases s.len(),
{
    if s.len() == 0 {
        0
    } else {
        (10 * value(s.drop_last()) + (s.last() as int - '0' as int)) as nat
    }
}

/// What a unit multiplies by: the unit is the last character, and none of it stands
/// for bytes.
pub open spec fn unit(c: char) -> Option<int> {
    if c == 'b' || c == 'B' || is_digit(c) {
        Some(1int)
    } else if c == 'k' || c == 'K' {
        Some(1024int)
    } else if c == 'm' || c == 'M' {
        Some(1048576int)
    } else if c == 'g' || c == 'G' {
        Some(1073741824int)
    } else {
        None
    }
}

/// The number of a size, without its unit.
pub open spec fn size_number(s: Seq<char>) -> Seq<char> {
    let t = trim(s);
    if is_digit(t.last()) {
        trim(t)
    } else {
        trim(t.drop_last())
    }
}

/// Bytes, but no more than can be written.
pub open spec fn at_most_max(n: int) -> i64 {
    if n > i64::MAX {
        i64::MAX
    } else {
        n as i64
    }
}

/// A size of memory read from `512m`, `2g`, `1024`: in powers of 1024. `None` where
/// there is no such unit.
pub fn parse_memory(s: &str) -> (r: Option<Memory>)
    ensures
        r is Some <==> trim(s@).len() > 0 && unit(trim(s@).last()) is Some,
        r is Some ==> {
            let n = size_number(s@);
            let m = unit(trim(s@).last())->0;
            match r->0 {
                Memory::Bytes(b) => all_digits(n) && value(n) <= EXACT_WHOLE && b == at_most_max(
                    value(n) * m,
                ),
                Memory::Number { number, multiplier } => number@ == n && multiplier == m && !(
                all_digits(n) && value(n) <= EXACT_WHOLE),
            }
        },
{
    let t = trimmed(s);
    let cs = chars_of(&t);
    let n: usize = cs.len();
    if n == 0 {
        return None;
    }
    let last = cs[n - 1];
    let digit = last >= '0' && last <= '9';
    let multiplier: i64 = if digit || last == 'b' || last == 'B' {
        1
    } else if last == 'k' || last == 'K' {
        1024
    } else if last == 'm' || last == 'M' {
        1048576
    } else if last == 'g' || last == 'G' {
        1073741824
    } else {
        return None;
    };
    let number = if digit {
        trimmed(&t)
    } else {
        let head = string_of(&cs, 0, n - 1);
        assert(head@ =~= trim(s@).drop_last());
        trimmed(&head)
    };
    match whole_number(&number) {
        Some(v) => {
            assert(v * multiplier <= 9007199254740992 * 1073741824) by (nonlinear_arith)
                requires
                    0 <= v <= 9007199254740992,
                    0 <= multiplier <= 1073741824,
            ;
            assert(v * multiplier >= 0) by (nonlinear_arith)
                requires
                    0 <= v,
                    0 <= multiplier,
            ;
            let bytes: u128 = v * (multiplier as u128);
            let most: u128 = i64::MAX as u128;
            Some(Memory::Bytes(if bytes > most { i64::MAX } else { bytes as i64 }))
        },
        None => Some(Memory::Number { number, multiplier }),
    }
}

/// The whole number that `s` writes, where it writes a small one.
fn whole_number(s: &str) -> (r: Option<u128>)
    ensures
        r is Some <==> all_digits(s@) && value(s@) <= EXACT_WHOLE,
        r is Some ==> r->0 == value(s@),
{
    let cs = chars_of(s);
    if cs.len() == 0 {
        return None;
    }
    let mut v: u128 = 0;
    let mut small = true;
    let mut i: usize = 0;
    assert(s@.take(0) =~= seq![]);
    while i < cs.len()
        invariant
            i <= cs@.len(),
            cs@ == s@,
            forall|k: int| 0 <= k < i ==> is_digit(#[trigger] s@[k]),
            small ==> v == value(s@.take(i as int)) && v <= EXACT_WHOLE,
            !small ==> value(s@.take(i as int)) > EXACT_WHOLE,
        decreases cs.len() - i,
    {
        let c = cs[i];
        if !(c >= '0' && c <= '9') {
            assert(!is_digit(s@[i as int]));
            return None;
        }
        assert(s@.take(i + 1).drop_last() =~= s@.take(i as int));
        assert(s@.take(i + 1).last() == c);
        if small {
            v = 10 * v + ((c as u32 - '0' as u32) as u128);
            small = v <= EXACT_WHOLE;
        }
        i = i + 1;
    }
    assert(s@.take(i as int) =~= s@);
    if small {
        Some(v)
    } else {
        None
    }
}

// ---------------------------------------------------------------------------
// What Docker is asked for
// ---------------------------------------------------------------------------

/// What Docker is told about the host's side of a container.
#[derive(Debug)]
pub struct HostBody {
    pub binds: Option<Vec<String>>,
    pub memory: Option<i64>,
    pub nano_cpus: Option<i64>,
    pub pids_limit: Option<i64>,
    pub cap_drop: Option<Vec<String>>,
    pub cap_add: Option<Vec<String>>,
    pub dns: Option<Vec<String>>,
    pub extra_hosts: Option<Vec<String>>,
    pub security_opt: Option<Vec<String>>,
    pub sysctls: Option<Vec<(String, String)>>,
    pub network_mode: Option<String>,
}

/// What Docker is told to create.
#[derive(Debug)]
pub struct CreateBody {
    pub name: String,
    pub image: String,
    pub cmd: Vec<String>,
    pub working_dir: Option<String>,
    pub user: Option<String>,
    pub env: Option<Vec<String>>,
    pub entrypoint: Option<Vec<String>>,
    pub labels: Vec<(String, String)>,
    pub host: HostBody,
    /// The network in which the container has a fixed address, and that address.
    pub endpoint: Option<(String, String)>,
}

/// What a container's memory is, `scaled` being what a number that is not written as
/// a plain whole number comes to.
pub open spec fn memory_is(memory: Option<String>, scaled: Option<i64>, bytes: Option<i64>) -> bool {
    match memory {
        None => bytes is None,
        Some(m) => if trim(m@).len() == 0 || unit(trim(m@).last()) is None {
            bytes is None
        } else if all_digits(size_number(m@)) && value(size_number(m@)) <= EXACT_WHOLE {
            bytes == Some(
                at_most_max(value(size_number(m@)) * unit(trim(m@).last())->0),
            )
        } else {
            bytes == scaled
        },
    }
}

/// An environment variable as Docker is told it.
pub open spec fn env_arg(kv: (String, String)) -> Seq<char> {
    kv.0@ + "="@ + kv.1@
}

/// The request is the one for this container.
pub open spec fn host_matches(spec: ContainerSpec, scaled: Option<i64>, h: HostBody) -> bool {
    &&& (h.binds is None <==> spec.mounts@.len() == 0)
    &&& h.binds is Some ==> strs((h.binds->0)@) == Seq::new(
        spec.mounts@.len(),
        |i: int| spec.mounts@[i].arg(),
    )
    &&& memory_is(spec.memory, scaled, h.memory)
    &&& h.nano_cpus == spec.nano_cpus
    &&& h.pids_limit == match spec.pids_limit {
        Some(n) => Some(n as i64),
        None => None,
    }
    &&& opt_list(h.cap_drop) == unless_empty(spec.cap_drop@)
    &&& opt_list(h.cap_add) == unless_empty(spec.cap_add@)
    &&& opt_list(h.dns) == unless_empty(spec.dns@)
    &&& opt_list(h.extra_hosts) == unless_empty(spec.extra_hosts@)
    &&& opt_list(h.security_opt) == unless_empty(spec.security_opt@)
    &&& (h.sysctls is None <==> spec.sysctls@.len() == 0)
    &&& h.sysctls is Some ==> (h.sysctls->0)@ == spec.sysctls@
    &&& h.network_mode == spec.network
}

/// The request is the one for this container, made by this version.
pub open spec fn create_matches(
    spec: ContainerSpec,
    scaled: Option<i64>,
    version: Seq<char>,
    b: CreateBody,
) -> bool {
    &&& b.name@ == spec.name@
    &&& b.image@ == spec.image@
    &&& match spec.keep_alive {
        Some(c) => b.cmd@ == c@,
        None => strs(b.cmd@) == seq!["tail"@, "-f"@, "/dev/null"@],
    }
    &&& crate::grep::opt(b.working_dir) == if spec.workdir@.len() == 0 {
        None
    } else {
        Some(spec.workdir@)
    }
    &&& b.user == spec.user
    &&& (b.env is None <==> spec.env@.len() == 0)
    &&& b.env is Some ==> strs((b.env->0)@) == Seq::new(
        spec.env@.len(),
        |i: int| env_arg(spec.env@[i]),
    )
    &&& match spec.entrypoint {
        Some(e) => b.entrypoint is Some && (b.entrypoint->0)@ == seq![e],
        None => b.entrypoint is None,
    }
    &&& b.labels@.len() == 2
    &&& b.labels@[0].0@ == "cowboy"@
    &&& b.labels@[0].1@ == "1"@
    &&& b.labels@[1].0@ == "cowboy.version"@
    &&& b.labels@[1].1@ == version
    &&& host_matches(spec, scaled, b.host)
    &&& b.endpoint == match (spec.network, spec.ip) {
        (Some(n), Some(ip)) => Some((n, ip)),
        _ => None,
    }
}

fn bind_args(mounts: &Vec<BindMount>) -> (r: Vec<String>)
    ensures
        strs(r@) == Seq::new(mounts@.len(), |i: int| mounts@[i].arg()),
{
    let mut out: Vec<String> = Vec::new();
    let mut i: usize = 0;
    while i < mounts.len()
        invariant
            i <= mounts@.len(),
            out@.len() == i,
            forall|k: int| 0 <= k < i ==> (#[trigger] out@[k])@ == mounts@[k].arg(),
        decreases mounts.len() - i,
    {
        out.push(mounts[i].to_arg());
        i = i + 1;
    }
    assert(strs(out@) =~= Seq::new(mounts@.len(), |i: int| mounts@[i].arg()));
    out
}

fn env_args(env: &Vec<(String, String)>) -> (r: Vec<String>)
    ensures
        strs(r@) == Seq::new(env@.len(), |i: int| env_arg(env@[i])),
{
    let mut out: Vec<String> = Vec::new();
    let mut i: usize = 0;
    while i < env.len()
        invariant
            i <= env@.len(),
            out@.len() == i,
            forall|k: int| 0 <= k < i ==> (#[trigger] out@[k])@ == env_arg(env@[k]),
        decreases env.len() - i,
    {
        let mut e = env[i].0.clone();
        e.push_str("=");
        e.push_str(&env[i].1);
        out.push(e);
        i = i + 1;
    }
    assert(strs(out@) =~= Seq::new(env@.len(), |i: int| env_arg(env@[i])));
    out
}

/// A copy of a list of pairs.
pub fn copied_pairs(v: &Vec<(String, String)>) -> (r: Vec<(String, String)>)
    ensures
        r@ == v@,
{
    let mut out: Vec<(String, String)> = Vec::new();
    let mut i: usize = 0;
    while i < v.len()
        invariant
            i <= v@.len(),
            out@ == v@.take(i as int),
        decreases v.len() - i,
    {
        out.push((v[i].0.clone(), v[i].1.clone()));
        i = i + 1;
        assert(v@.take(i as int) =~= v@.take(i - 1).push(v@[i - 1]));
    }
    assert(v@.take(v@.len() as int) =~= v@);
    out
}

/// A copy of an optional text.
pub fn copied_opt(s: &Option<String>) -> (r: Option<String>)
    ensures
        r == *s,
{
    match s {
        Some(t) => Some(t.clone()),
        None => None,
    }
}

fn build_host(spec: &ContainerSpec, scaled: Option<i64>) -> (r: HostBody)
    ensures
        host_matches(*spec, scaled, r),
{
    let memory: Option<i64> = match &spec.memory {
        Some(m) => match parse_memory(m) {
            Some(Memory::Bytes(b)) => Some(b),
            Some(Memory::Number { .. }) => scaled,
            None => None,
        },
        None => None,
    };
    let pids_limit: Option<i64> = match spec.pids_limit {
        Some(n) => Some(n as i64),
        None => None,
    };
    HostBody {
        binds: if spec.mounts.len() == 0 {
            None
        } else {
            Some(bind_args(&spec.mounts))
        },
        memory,
        nano_cpus: spec.nano_cpus,
        pids_limit,
        cap_drop: copied_unless_empty(&spec.cap_drop),
        cap_add: copied_unless_empty(&spec.cap_add),
        dns: copied_unless_empty(&spec.dns),
        extra_hosts: copied_unless_empty(&spec.extra_hosts),
        security_opt: copied_unless_empty(&spec.security_opt),
        sysctls: if spec.sysctls.len() == 0 {
            None
        } else {
            Some(copied_pairs(&spec.sysctls))
        },
        network_mode: copied_opt(&spec.network),
    }
}

/// What Docker is asked to create for a container. `scaled` is what the memory comes
/// to where it is not written as a plain whole number.
pub fn build_create(spec: &ContainerSpec, scaled: Option<i64>, version: &str) -> (r: CreateBody)
    ensures
        create_matches(*spec, scaled, version@, r),
{
    let cmd = match &spec.keep_alive {
        Some(c) => copied(c),
        None => {
            let mut c: Vec<String> = Vec::new();
            c.push("tail".to_owned());
            c.push("-f".to_owned());
            c.push("/dev/null".to_owned());
            assert(strs(c@) =~= seq!["tail"@, "-f"@, "/dev/null"@]);
            c
        },
    };
    let mut labels: Vec<(String, String)> = Vec::new();
    labels.push(("cowboy".to_owned(), "1".to_owned()));
    labels.push(("cowboy.version".to_owned(), version.to_owned()));
    let entrypoint = match &spec.entrypoint {
        Some(e) => {
            let mut one: Vec<String> = Vec::new();
            one.push(e.clone());
            assert(one@ =~= seq![*e]);
            Some(one)
        },
        None => None,
    };
    let endpoint = match (&spec.network, &spec.ip) {
        (Some(n), Some(ip)) => Some((n.clone(), ip.clone())),
        _ => None,
    };
    CreateBody {
        name: spec.name.clone(),
        image: spec.image.clone(),
        cmd,
        working_dir: non_empty(&spec.workdir),
        user: copied_opt(&spec.user),
        env: if spec.env.len() == 0 {
            None
        } else {
            Some(env_args(&spec.env))
        },
        entrypoint,
        labels,
        host: build_host(spec, scaled),
        endpoint,
    }
}

// ---------------------------------------------------------------------------
// Laws
// ---------------------------------------------------------------------------

/// A number that is written in decimal is read back.
pub proof fn decimals_are_read_back(n: nat)
    ensures
        all_digits(dec(n)),
        value(dec(n)) == n,
        n > 0 ==> dec(n)[0] != '0',
    decreases n,
{
    if n >= 10 {
        decimals_are_read_back(n / 10);
        let d = dec(n);
        assert(d.drop_last() =~= dec(n / 10));
        assert forall|i: int| 0 <= i < d.len() implies is_digit(#[trigger] d[i]) by {
            if i < d.len() - 1 {
                assert(d[i] == dec(n / 10)[i]);
            }
        }
        assert(d[0] == dec(n / 10)[0]);
    } else {
        assert(dec(n).drop_last() =~= seq![]);
        assert(value(seq![]) == 0);
    }
}

/// The units of a size, each the 1024th part of the next, in either case: bytes, which a
/// number without a unit is in too, and then kilo-, mega- and gigabytes. There is no
/// other.
pub proof fn units_are_powers(c: char)
    ensures
        unit('b') == Some(1int) && unit('B') == Some(1int),
        unit('k')->0 == 1024 * unit('b')->0 && unit('K') == unit('k'),
        unit('m')->0 == 1024 * unit('k')->0 && unit('M') == unit('m'),
        unit('g')->0 == 1024 * unit('m')->0 && unit('G') == unit('g'),
        is_digit(c) ==> unit(c) == Some(1int),
        unit(c) is Some <==> is_digit(c) || seq![
            'b',
            'B',
            'k',
            'K',
            'm',
            'M',
            'g',
            'G',
        ].contains(c),
{
    let all = seq!['b', 'B', 'k', 'K', 'm', 'M', 'g', 'G'];
    assert(all[0] == 'b' && all[1] == 'B' && all[2] == 'k' && all[3] == 'K' && all[4] == 'm'
        && all[5] == 'M' && all[6] == 'g' && all[7] == 'G');
}

proof fn lemma_trim_tight(s: Seq<char>)
    requires
        s.len() > 0,
        !is_ws(s[0]),
        !is_ws(s.last()),
    ensures
        trim(s) == s,
{
    let (a, b) = trimming_leaves_the_middle(s);
    assert(a == 0) by {
        if a > 0 {
            assert(is_ws(s[0]));
        }
    }
    assert(b == s.len()) by {
        if b < s.len() {
            assert(is_ws(s[s.len() - 1]));
        }
    }
    assert(s.subrange(0, s.len() as int) =~= s);
}

/// A whole number with a unit behind it is a limit of that many of the unit, up to the
/// largest number of bytes there is; without a unit it is a limit in bytes.
pub proof fn limits_are_read(n: nat, c: char, memory: String, scaled: Option<i64>, bytes: Option<i64>)
    requires
        n <= EXACT_WHOLE,
        memory@ == dec(n).push(c) && seq!['k', 'K', 'm', 'M', 'g', 'G'].contains(c) || memory@
            == dec(n) && c == 'b',
        memory_is(Some(memory), scaled, bytes),
    ensures
        ({
            let of: int = if c == 'b' {
                1
            } else if c == 'k' || c == 'K' {
                1024
            } else if c == 'm' || c == 'M' {
                1048576
            } else {
                1073741824
            };
            bytes == Some(
                (if n * of <= i64::MAX {
                    n * of
                } else {
                    i64::MAX as int
                }) as i64,
            )
        }),
{
    let d = dec(n);
    let m = memory@;
    decimals_are_read_back(n);
    assert(is_digit(d[0]) && is_digit(d[d.len() - 1]));
    lemma_trim_tight(d);
    let all = seq!['k', 'K', 'm', 'M', 'g', 'G'];
    if m != d {
        let k = all.index_of(c);
        assert(0 <= k < 6 && all[k] == c);
        assert(m[0] == d[0]);
        lemma_trim_tight(m);
        assert(m.drop_last() =~= d);
    }
}

/// A request for a container holds what was asked for: the name, the image and the user,
/// every mount with its mode, every variable, the limits, and every capability that is
/// dropped or added.
pub proof fn requests_hold_what_is_asked(
    spec: ContainerSpec,
    scaled: Option<i64>,
    version: Seq<char>,
    b: CreateBody,
    i: int,
)
    requires
        create_matches(spec, scaled, version, b),
    ensures
        b.name@ == spec.name@ && b.image@ == spec.image@ && b.user == spec.user,
        0 <= i < spec.mounts@.len() ==> b.host.binds is Some && {
            let m = spec.mounts@[i];
            let arg = (b.host.binds->0)@[i]@;
            &&& (b.host.binds->0)@.len() == spec.mounts@.len()
            &&& m.read_only ==> arg == m.source@ + ":"@ + m.target@ + ":ro"@
            &&& !m.read_only ==> arg == m.source@ + ":"@ + m.target@
        },
        0 <= i < spec.env@.len() ==> b.env is Some && (b.env->0)@.len() == spec.env@.len() && (
        b.env->0)@[i]@ == spec.env@[i].0@ + "="@ + spec.env@[i].1@,
        spec.cap_drop@.len() > 0 ==> b.host.cap_drop is Some && (b.host.cap_drop->0)@
            == spec.cap_drop@,
        spec.cap_add@.len() == 0 ==> b.host.cap_add is None,
        spec.security_opt@.len() > 0 ==> b.host.security_opt is Some && (b.host.security_opt->0)@
            == spec.security_opt@,
        b.host.nano_cpus == spec.nano_cpus,
        spec.pids_limit matches Some(n) ==> b.host.pids_limit == Some(n as i64),
        b.host.network_mode == spec.network,
{
    if 0 <= i < spec.mounts@.len() {
        let args = strs((b.host.binds->0)@);
        assert(args.len() == spec.mounts@.len());
        assert(args[i] == spec.mounts@[i].arg());
    }
    if 0 <= i < spec.env@.len() {
        let args = strs((b.env->0)@);
        assert(args.len() == spec.env@.len());
        assert(args[i] == env_arg(spec.env@[i]));
    }
}

} // verus!
