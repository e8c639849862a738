//! Long-running processes that a project defines.

use crate::registry::Registry;
use crate::search::{contains, has};
use crate::text::{push_text, strs, trim, trimmed};
use crate::words::{join, joined, pad_right, padded_right, quote, quoted};
use vstd::prelude::*;

verus! {

broadcast use vstd::string::group_string_axioms;

/// Names in quotes.
pub open spec fn quoted_names(names: Seq<Seq<char>>) -> Seq<Seq<char>> {
    Seq::new(names.len(), |i: int| quoted(names[i]))
}

/// That there is no process of a name, and which there are.
pub open spec fn no_process(name: Seq<char>, names: Seq<Seq<char>>) -> Seq<char> {
    "no process named "@ + quoted(name) + "; defined: ["@ + join(quoted_names(names), ", "@) + "]"@
}

/// The command of a process.
pub fn def<'a>(procs: &'a Registry<String>, name: &str) -> (r: Result<&'a String, String>)
    ensures
        match r {
            Ok(command) => procs.has(name@) && *command == procs.table()[name@],
            Err(why) => !procs.has(name@) && why@ == no_process(name@, procs.names()),
        },
{
    match procs.get(name) {
        Some(c) => Ok(c),
        None => {
            let keys = procs.keys();
            let mut all: Vec<String> = Vec::new();
            let ghost qs = quoted_names(strs(keys@));
            let mut i: usize = 0;
            assert(strs(all@) =~= qs.take(0));
            while i < keys.len()
                invariant
                    i <= keys@.len(),
                    qs == quoted_names(strs(keys@)),
                    strs(all@) == qs.take(i as int),
                decreases keys.len() - i,
            {
                push_text(&mut all, quote(&keys[i]));
                assert(strs(all@) =~= qs.take(i + 1));
                i = i + 1;
            }
            assert(qs.take(qs.len() as int) =~= qs);
            let mut why = "no process named ".to_owned();
            why.push_str(&quote(name));
            why.push_str("; defined: [");
            why.push_str(&joined(&all, ", "));
            why.push_str("]");
            Err(why)
        },
    }
}

/// Where a process leaves its number.
pub open spec fn pid_path(dir: Seq<char>, name: Seq<char>) -> Seq<char> {
    dir + "/"@ + name + ".pid"@
}

/// Where a process leaves its number.
pub fn pid_file(dir: &str, name: &str) -> (r: String)
    ensures
        r@ == pid_path(dir@, name@),
{
    let mut out = dir.to_owned();
    out.push_str("/");
    out.push_str(name);
    out.push_str(".pid");
    out
}

/// Where a process writes.
pub fn log_file(dir: &str, name: &str) -> (r: String)
    ensures
        r@ == dir@ + "/"@ + name@ + ".log"@,
{
    let mut out = dir.to_owned();
    out.push_str("/");
    out.push_str(name);
    out.push_str(".log");
    out
}

/// The directory of the processes of a project.
pub fn proc_dir(workdir: &str) -> (r: String)
    ensures
        r@ == workdir@ + "/.cowboy/proc"@,
{
    let mut out = workdir.to_owned();
    out.push_str("/.cowboy/proc");
    out
}

/// A script that says whether a process is there. A file that is not there, or is empty,
/// is no process.
pub fn running_script(dir: &str, name: &str) -> (r: String)
    ensures
        r@ == "p=$(cat "@ + pid_path(dir@, name@)
            + " 2>/dev/null); [ -n \"$p\" ] && kill -0 \"$p\" 2>/dev/null && echo up"@,
{
    let mut out = "p=$(cat ".to_owned();
    out.push_str(&pid_file(dir, name));
    out.push_str(" 2>/dev/null); [ -n \"$p\" ] && kill -0 \"$p\" 2>/dev/null && echo up");
    out
}

/// Whether a process is there, from what the script said, where it could be run.
pub fn is_running(said: &Option<String>) -> (r: bool)
    ensures
        r == (match *said {
            Some(out) => contains(out@, "up"@),
            None => false,
        }),
{
    match said {
        Some(out) => has(out, "up"),
        None => false,
    }
}

/// The line on a process.
pub open spec fn process_line(name: Seq<char>, running: bool, command: Seq<char>) -> Seq<char> {
    pad_right(name, 16) + " "@ + pad_right(
        if running {
            "running"@
        } else {
            "stopped"@
        },
        8,
    ) + " "@ + command
}

/// The lines on all processes.
pub fn list(procs: &Registry<String>, running: &Vec<bool>) -> (r: Vec<String>)
    requires
        running.len() == procs.list().len(),
    ensures
        strs(r@) == (if procs.list().len() == 0 {
            seq!["no processes defined in .cowboy/agent.yaml"@]
        } else {
            seq![pad_right("NAME"@, 16) + " "@ + pad_right("STATUS"@, 8) + " COMMAND"@] + Seq::new(
                procs.list().len(),
                |i: int|
                    process_line(procs.list()[i].0@, running@[i], procs.list()[i].1@),
            )
        }),
{
    let mut out: Vec<String> = Vec::new();
    let n = procs.len();
    if n == 0 {
        push_text(&mut out, "no processes defined in .cowboy/agent.yaml".to_owned());
        assert(strs(out@) =~= seq!["no processes defined in .cowboy/agent.yaml"@]);
        return out;
    }
    let mut head = padded_right("NAME", 16);
    head.push_str(" ");
    head.push_str(&padded_right("STATUS", 8));
    head.push_str(" COMMAND");
    let ghost h = seq![head@];
    push_text(&mut out, head);
    let ghost ls = Seq::new(
        procs.list().len(),
        |i: int| process_line(procs.list()[i].0@, running@[i], procs.list()[i].1@),
    );
    let mut i: usize = 0;
    assert(strs(out@) =~= h + ls.take(0));
    while i < n
        invariant
            i <= n,
            n == procs.list().len(),
            running@.len() == n,
            ls == Seq::new(
                procs.list().len(),
                |i: int| process_line(procs.list()[i].0@, running@[i], procs.list()[i].1@),
            ),
            strs(out@) == h + ls.take(i as int),
        decreases n - i,
    {
        let mut line = padded_right(procs.name_at(i), 16);
        line.push_str(" ");
        line.push_str(
            &padded_right(
                if running[i] {
                    "running"
                } else {
                    "stopped"
                },
                8,
            ),
        );
        line.push_str(" ");
        line.push_str(procs.value_at(i));
        assert(line@ == ls[i as int]);
        push_text(&mut out, line);
        assert(strs(out@) =~= h + ls.take(i + 1));
        i = i + 1;
    }
    assert(ls.take(ls.len() as int) =~= ls);
    out
}

/// Why a process cannot be started from a command that ends at once.
pub open spec fn start_refusal(name: Seq<char>, command: Seq<char>) -> Seq<char> {
    "`cowboy proc start` cannot start "@ + name
        + ": a background process is owned by the session that starts it (it has to be, or nothing reaps it), and this command exits immediately.\n\n- In a session, ask the agent to start it — it has a `proc` tool, and "@
        + name + " is already defined in agent.yaml: `"@ + command
        + "`\n- To run it yourself, use `cowboy shell` and start it there.\n\n`cowboy proc list` and `cowboy proc logs "@
        + name + "` still work."@
}

/// A process is not started from a command that ends at once: one that is not defined is
/// said not to be, and of any other what can be done instead.
pub fn start(procs: &Registry<String>, name: &str) -> (r: String)
    ensures
        r@ == (if procs.has(name@) {
            start_refusal(name@, procs.table()[name@]@)
        } else {
            no_process(name@, procs.names())
        }),
{
    match def(procs, name) {
        Err(why) => why,
        Ok(command) => {
            let mut s = "`cowboy proc start` cannot start ".to_owned();
            s.push_str(name);
            s.push_str(
                ": a background process is owned by the session that starts it (it has to be, or nothing reaps it), and this command exits immediately.\n\n- In a session, ask the agent to start it — it has a `proc` tool, and ",
            );
            s.push_str(name);
            s.push_str(" is already defined in agent.yaml: `");
            s.push_str(command);
            s.push_str(
                "`\n- To run it yourself, use `cowboy shell` and start it there.\n\n`cowboy proc list` and `cowboy proc logs ",
            );
            s.push_str(name);
            s.push_str("` still work.");
            s
        },
    }
}

/// A script that stops a process and all that it started, and forgets its number.
pub open spec fn stop_text(pid: Seq<char>) -> Seq<char> {
    "p=$(cat "@ + pid
        + " 2>/dev/null); [ -n \"$p\" ] || { echo 'not running (processes started in a session end with it)'; exit 0; }; kill -TERM -\"$p\" 2>/dev/null; sleep 2; kill -KILL -\"$p\" 2>/dev/null; rm -f "@
        + pid + "; echo stopped"@
}

/// A script that stops a process and all that it started, and forgets its number.
pub fn stop_script(dir: &str, name: &str) -> (r: String)
    ensures
        r@ == stop_text(pid_path(dir@, name@)),
{
    let pid = pid_file(dir, name);
    let mut s = "p=$(cat ".to_owned();
    s.push_str(&pid);
    s.push_str(
        " 2>/dev/null); [ -n \"$p\" ] || { echo 'not running (processes started in a session end with it)'; exit 0; }; kill -TERM -\"$p\" 2>/dev/null; sleep 2; kill -KILL -\"$p\" 2>/dev/null; rm -f ",
    );
    s.push_str(&pid);
    s.push_str("; echo stopped");
    s
}

/// What is said where a process was to be stopped.
pub fn stopped_line(name: &str, said: &str) -> (r: String)
    ensures
        r@ == name@ + ": "@ + trim(said@),
{
    let mut out = name.to_owned();
    out.push_str(": ");
    out.push_str(&trimmed(said));
    out
}

/// The command that follows what a process writes.
pub fn logs_command(dir: &str, name: &str) -> (r: Vec<String>)
    ensures
        strs(r@) == seq!["sh"@, "-lc"@, "tail -n 200 -f "@ + (dir@ + "/"@ + name@ + ".log"@)],
{
    let mut v: Vec<String> = Vec::new();
    push_text(&mut v, "sh".to_owned());
    push_text(&mut v, "-lc".to_owned());
    let mut c = "tail -n 200 -f ".to_owned();
    c.push_str(&log_file(dir, name));
    push_text(&mut v, c);
    assert(strs(v@) =~= seq!["sh"@, "-lc"@, "tail -n 200 -f "@ + (dir@ + "/"@ + name@ + ".log"@)]);
    v
}

} // verus!
