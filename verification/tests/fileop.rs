use cowboy_cli::atomic::{AtomicWrite, WriteAction, WriteStage};
use cowboy_cli::confine::{path_of, resolve};
use cowboy_cli::edit::{edit as edit_text, edit_specs};
use cowboy_cli::grep::{gitignore_counts, GrepReq};
use cowboy_cli::listing::{write_report, ListReq, Listing};
use cowboy_cli::pattern::{
    compile_glob, compile_ignore, is_ignored as ignored_by, search_pattern, IgnoreRule,
};
use cowboy_cli::repair::{line_block, uniform_shift, EditSpec, Shift};
use cowboy_cli::view::{read as read_text, strip_read_gutter};
use cowboy_cli::workspace::{grep as grep_tree, list as list_tree, start_grep, start_list, Entry, IgnoreRules};

use std::collections::{BTreeMap, BTreeSet};

const ROOT: &str = "/ws";

/// A workspace in memory: the files by their paths below the root.
struct Workspace {
    files: BTreeMap<String, Vec<u8>>,
    modes: BTreeMap<String, u32>,
}

fn tmp() -> Workspace {
    Workspace { files: BTreeMap::new(), modes: BTreeMap::new() }
}

impl Workspace {
    fn put(&mut self, path: &str, bytes: &[u8]) {
        self.files.insert(path.to_string(), bytes.to_vec());
    }

    /// Replaces a file; `broken` is the action that does not work.
    fn replace(&mut self, path: &str, bytes: &[u8], broken: Option<usize>) -> Result<(), String> {
        let mode = if self.files.contains_key(path) {
            Some(self.modes.get(path).copied().unwrap_or(0o644))
        } else {
            None
        };
        let before = self.files.get(path).cloned();
        let mut write = AtomicWrite::new(path, mode, 42);
        let mut n = 0;
        loop {
            let works = broken != Some(n);
            n += 1;
            match write.action() {
                WriteAction::Nothing => break,
                WriteAction::Create(at) if works => {
                    self.put(&at, b"");
                }
                WriteAction::Fill(at) => {
                    let part = if works { bytes } else { &bytes[..1] };
                    self.put(&at, part);
                }
                WriteAction::SetMode(at, mode) if works => {
                    self.modes.insert(at, mode);
                }
                WriteAction::Rename { from, to } if works => {
                    let moved = self.files.remove(&from).unwrap();
                    self.files.insert(to.clone(), moved);
                    self.modes.remove(&to);
                    if let Some(mode) = self.modes.remove(&from) {
                        self.modes.insert(to, mode);
                    }
                }
                WriteAction::Remove(at) if works => {
                    self.files.remove(&at);
                    self.modes.remove(&at);
                }
                _ => {}
            }
            write = write.step(if works { Ok(()) } else { Err("broken".to_string()) });
            let now = self.files.get(path).cloned();
            let done = write.stage == WriteStage::Done;
            assert_eq!(now, if done { Some(bytes.to_vec()) } else { before.clone() });
        }
        match write.stage {
            WriteStage::Failed { what, why } => Err(format!("{what}: {why}")),
            _ => Ok(()),
        }
    }

    fn text(&self, path: &str) -> String {
        String::from_utf8(self.files[path].clone()).unwrap()
    }

    fn is_dir(&self, path: &str) -> bool {
        path.is_empty() || self.files.keys().any(|k| k.starts_with(&format!("{path}/")))
    }

    fn has(&self, path: &str) -> bool {
        self.is_dir(path) || self.files.contains_key(path)
    }

    fn ignores(&self) -> Vec<(String, String)> {
        let mut out = Vec::new();
        for (path, bytes) in &self.files {
            let text = String::from_utf8_lossy(bytes).into_owned();
            if path == ".gitignore" {
                out.push((String::new(), text));
            } else if let Some(dir) = path.strip_suffix("/.gitignore") {
                out.push((dir.to_string(), text));
            }
        }
        out
    }

    /// What is below `base`, directories before what is in them, in order.
    fn below(&self, base: &str) -> Vec<Entry> {
        let mut dirs = BTreeSet::new();
        for path in self.files.keys() {
            let parts: Vec<&str> = path.split('/').collect();
            for n in 1..parts.len() {
                dirs.insert(parts[..n].join("/"));
            }
        }
        let mut all: Vec<Entry> = Vec::new();
        for dir in dirs {
            all.push(Entry { path: dir, is_dir: true, is_file: false, bytes: None });
        }
        for (path, bytes) in &self.files {
            all.push(Entry {
                path: path.clone(),
                is_dir: false,
                is_file: true,
                bytes: Some(bytes.clone()),
            });
        }
        all.retain(|e| base.is_empty() || e.path == base || e.path.starts_with(&format!("{base}/")));
        all.sort_by(|a, b| a.path.cmp(&b.path));
        all
    }
}

fn write(ws: &mut Workspace, path: &str, content: &str) -> Result<String, String> {
    let at = path_of(&resolve(ROOT, path)?);
    let existed = ws.files.contains_key(&at);
    ws.replace(&at, content.as_bytes(), None)?;
    Ok(write_report(path, existed, content))
}

fn read(
    ws: &Workspace,
    path: &str,
    offset: Option<usize>,
    limit: Option<usize>,
) -> Result<String, String> {
    let at = path_of(&resolve(ROOT, path)?);
    read_text(path, ws.files[&at].clone(), offset, limit)
}

fn edit(ws: &mut Workspace, path: &str, specs: &Vec<EditSpec>) -> Result<String, String> {
    let at = path_of(&resolve(ROOT, path)?);
    let edited = edit_text(path, &ws.text(&at), specs)?;
    if edited.changed {
        ws.replace(&at, edited.text.as_bytes(), None)?;
    }
    Ok(edited.report)
}

fn grep(ws: &Workspace, req: GrepReq) -> Result<String, String> {
    let include_ignored = req.include_ignored;
    let (search, base) = start_grep(ROOT, req)?;
    let rules = if include_ignored { None } else { Some(IgnoreRules::new(&ws.ignores())) };
    grep_tree(search, &base, ws.has(&base), &rules, ws.below(&base))
}

fn list(ws: &Workspace, req: ListReq) -> Result<String, String> {
    let include_ignored = req.include_ignored;
    let (listing, base) = start_list(ROOT, Listing::new(req)?)?;
    let rules = if include_ignored { None } else { Some(IgnoreRules::new(&ws.ignores())) };
    let mut tree = ws.below(&base);
    tree.retain(|e| e.path != base);
    list_tree(listing, &base, ws.has(&base), ws.is_dir(&base), &rules, &tree)
}

fn grep_req(pattern: &str) -> GrepReq {
    GrepReq {
        pattern: pattern.to_string(),
        path: None,
        glob: None,
        literal: false,
        case_insensitive: false,
        max_results: None,
        context: None,
        files_only: false,
        include_ignored: false,
    }
}

#[test]
fn resolve_accepts_relative_and_workspace_prefixed() {
    assert_eq!(path_of(&resolve(ROOT, "src/a.rs").unwrap()), "src/a.rs");
    // The prefix of the workspace is stripped.
    assert_eq!(path_of(&resolve(ROOT, &format!("{ROOT}/src/a.rs")).unwrap()), "src/a.rs");
    assert_eq!(path_of(&resolve(ROOT, "a/./b/../c.rs").unwrap()), "a/c.rs");
}

#[test]
fn resolve_rejects_escapes() {
    assert!(resolve(ROOT, "../escape").is_err());
    assert!(resolve(ROOT, "a/../../escape").is_err());
    assert!(resolve(ROOT, "/etc/passwd").is_err());
    assert!(resolve(ROOT, "").is_err());
}

#[test]
fn write_then_read_roundtrips_with_line_numbers() {
    let mut root = tmp();
    let msg = write(&mut root, "dir/hello.txt", "one\ntwo\nthree\n").unwrap();
    assert!(msg.contains("created"));
    let out = read(&root, "dir/hello.txt", None, None).unwrap();
    assert!(out.contains("     1\tone"));
    assert!(out.contains("     3\tthree"));
    // Overwrite reports differently.
    let msg = write(&mut root, "dir/hello.txt", "x\n").unwrap();
    assert!(msg.contains("overwrote"));
}

#[test]
fn read_offset_and_limit_window() {
    let mut root = tmp();
    let body: String = (1..=10).map(|i| format!("L{i}\n")).collect();
    write(&mut root, "f.txt", &body).unwrap();
    let out = read(&root, "f.txt", Some(3), Some(2)).unwrap();
    assert!(out.contains("     3\tL3"));
    assert!(out.contains("     4\tL4"));
    assert!(!out.contains("\tL5"));
    assert!(out.contains("more line(s)"));
}

/// One edit, as a list.
fn one(old: &str, new: &str, replace_all: bool) -> Vec<EditSpec> {
    vec![EditSpec { old: old.to_string(), new: new.to_string(), replace_all }]
}

#[test]
fn writes_are_atomic_and_preserve_permissions() {
    let mut root = tmp();
    write(&mut root, "run.sh", "#!/bin/sh\necho old\n").unwrap();
    root.modes.insert("run.sh".into(), 0o755);

    write(&mut root, "run.sh", "#!/bin/sh\necho new\n").unwrap();
    assert_eq!(root.modes["run.sh"] & 0o777, 0o755, "the executable bit must survive an overwrite");
    edit(&mut root, "run.sh", &one("new", "newer", false)).unwrap();
    assert_eq!(root.modes["run.sh"] & 0o777, 0o755, "and an edit");
    // No temp files left behind.
    let leftovers: Vec<_> = root.files.keys().filter(|n| n.contains("cowboy-tmp")).collect();
    assert!(leftovers.is_empty(), "temp files left: {leftovers:?}");
}

#[test]
fn a_write_that_breaks_leaves_the_file_as_it_was() {
    let mut root = tmp();
    root.put("d/f", b"old");
    let why = |broken: usize| {
        let mut ws = Workspace { files: root.files.clone(), modes: BTreeMap::new() };
        let said = ws.replace("d/f", b"new", Some(broken));
        (said, ws.files.keys().cloned().collect::<Vec<String>>())
    };
    let sibling = "d/.f.cowboy-tmp-42".to_string();
    let (said, left) = why(0);
    assert_eq!(said.unwrap_err(), "creating temp file d/.f.cowboy-tmp-42: broken");
    assert_eq!(left, ["d/f"]);
    let (said, left) = why(1);
    assert_eq!(said.unwrap_err(), "writing temp file d/.f.cowboy-tmp-42: broken");
    assert_eq!(left, [sibling, "d/f".to_string()]);
    // Permissions that cannot be set do not stop it.
    assert!(why(2).0.is_ok());
    let (said, left) = why(3);
    assert_eq!(said.unwrap_err(), "replacing d/f: broken");
    assert_eq!(left, ["d/f"]);
}

#[test]
fn edit_requires_unique_match_unless_replace_all() {
    let mut root = tmp();
    write(&mut root, "f.txt", "a\nDUP\nb\nDUP\n").unwrap();
    // Not unique -> error.
    assert!(edit(&mut root, "f.txt", &one("DUP", "X", false)).is_err());
    // Missing -> error.
    assert!(edit(&mut root, "f.txt", &one("NOPE", "X", false)).is_err());
    // replace_all -> both replaced.
    let msg = edit(&mut root, "f.txt", &one("DUP", "X", true)).unwrap();
    assert!(msg.contains("2 replacements"), "{msg}");
    assert_eq!(root.text("f.txt"), "a\nX\nb\nX\n");
}

#[test]
fn edit_unique_match_replaces_once() {
    let mut root = tmp();
    write(&mut root, "f.txt", "hello world\n").unwrap();
    let msg = edit(&mut root, "f.txt", &one("world", "cowboy", false)).unwrap();
    assert!(msg.contains("1 replacement"), "{msg}");
    assert_eq!(root.text("f.txt"), "hello cowboy\n");
}

fn spec(old: &str, new: &str) -> EditSpec {
    EditSpec { old: old.to_string(), new: new.to_string(), replace_all: false }
}

#[test]
fn a_failing_edit_in_a_batch_leaves_the_file_untouched() {
    let mut root = tmp();
    write(&mut root, "f.rs", "let a = 1;\nlet b = 2;\nlet c = 3;\n").unwrap();
    let specs = vec![
        spec("let a = 1;", "let a = 9;"),
        spec("let b = 2;", "let b = 8;"),
        // Not in the file: the whole batch must roll back.
        spec("let z = 99;", "let z = 0;"),
    ];
    let err = edit(&mut root, "f.rs", &specs).unwrap_err();
    assert!(err.contains("edit 3 of 3"), "must say which edit failed: {err}");
    assert_eq!(
        root.text("f.rs"),
        "let a = 1;\nlet b = 2;\nlet c = 3;\n",
        "no edit may survive a failed batch"
    );
}

#[test]
fn a_batch_applies_every_edit_in_order() {
    let mut root = tmp();
    write(&mut root, "f.rs", "one\ntwo\nthree\n").unwrap();
    let specs = vec![spec("one", "1"), spec("three", "3")];
    let msg = edit(&mut root, "f.rs", &specs).unwrap();
    assert!(msg.contains("2 edits applied"), "{msg}");
    assert_eq!(root.text("f.rs"), "1\ntwo\n3\n");
}

#[test]
fn a_batch_edit_sees_the_previous_edits_result() {
    let mut root = tmp();
    write(&mut root, "f.txt", "aaa\n").unwrap();
    let specs = vec![spec("aaa", "bbb"), spec("bbb", "ccc")];
    edit(&mut root, "f.txt", &specs).unwrap();
    assert_eq!(root.text("f.txt"), "ccc\n");
}

#[test]
fn mixing_single_and_batch_forms_is_refused() {
    let err = edit_specs(Some("a".into()), Some("b".into()), false, vec![spec("c", "d")])
        .unwrap_err()
        .to_string();
    assert!(err.contains("not both"), "{err}");
    // And each half-specified single form names the missing field.
    assert!(edit_specs(Some("a".into()), None, false, vec![])
        .unwrap_err()
        .to_string()
        .contains("`new` is required"));
    assert!(edit_specs(None, None, false, vec![])
        .unwrap_err()
        .to_string()
        .contains("nothing to do"));
}

#[test]
fn a_guttered_old_string_is_repaired_and_applied() {
    let mut root = tmp();
    write(&mut root, "f.rs", "fn main() {\n    println!(\"hi\");\n}\n").unwrap();
    // Exactly what `read` prints for lines 1-2.
    let guttered = "     1\tfn main() {\n     2\t    println!(\"hi\");\n";
    let out =
        edit(&mut root, "f.rs", &one(guttered, "fn main() {\n    go();\n", false)).unwrap();
    assert!(out.contains("line-number gutter"), "must say so: {out}");
    assert_eq!(root.text("f.rs"), "fn main() {\n    go();\n}\n");
}

#[test]
fn a_gutter_in_new_is_stripped_too_rather_than_written_into_the_file() {
    let mut root = tmp();
    write(&mut root, "f.rs", "let x = 1;\n").unwrap();
    let out =
        edit(&mut root, "f.rs", &one("     1\tlet x = 1;\n", "     1\tlet x = 2;\n", false))
            .unwrap();
    assert!(out.contains("`old` and `new`"), "{out}");
    assert_eq!(root.text("f.rs"), "let x = 2;\n");
}

#[test]
fn a_crlf_mismatch_is_repaired_in_both_directions() {
    let mut root = tmp();
    write(&mut root, "f.txt", "alpha\r\nbeta\r\ngamma\r\n").unwrap();
    let out = edit(&mut root, "f.txt", &one("alpha\nbeta\n", "one\ntwo\n", false)).unwrap();
    assert!(out.contains("CRLF"), "{out}");
    assert_eq!(root.text("f.txt"), "one\r\ntwo\r\ngamma\r\n");

    write(&mut root, "g.txt", "alpha\nbeta\n").unwrap();
    let out = edit(&mut root, "g.txt", &one("alpha\r\nbeta\r\n", "x\r\n", false)).unwrap();
    assert!(out.contains("LF"), "{out}");
    assert_eq!(root.text("g.txt"), "x\n");
}

#[test]
fn a_uniformly_dedented_old_block_is_matched_and_the_replacement_reindented() {
    let mut root = tmp();
    write(
        &mut root,
        "f.rs",
        "impl T {\n    fn f(&self) {\n        let x = 1;\n        g(x);\n    }\n}\n",
    )
    .unwrap();
    // `old` copied with the leading 8 spaces dropped, `new` written the same way.
    let out =
        edit(&mut root, "f.rs", &one("let x = 1;\ng(x);\n", "let x = 2;\nh(x);\n", false))
            .unwrap();
    assert!(out.contains("indented"), "must report the shift: {out}");
    assert_eq!(
        root.text("f.rs"),
        "impl T {\n    fn f(&self) {\n        let x = 2;\n        h(x);\n    }\n}\n",
        "the replacement must land at the file's indentation"
    );
}

#[test]
fn an_over_indented_old_block_is_matched_and_the_replacement_outdented() {
    let mut root = tmp();
    write(&mut root, "f.rs", "fn f() {\nlet x = 1;\n}\n").unwrap();
    let out =
        edit(&mut root, "f.rs", &one("    let x = 1;", "    let x = 2;", false)).unwrap();
    assert!(out.contains("outdented"), "{out}");
    assert_eq!(root.text("f.rs"), "fn f() {\nlet x = 2;\n}\n");
}

#[test]
fn an_ambiguous_indentation_shift_is_refused_rather_than_guessed() {
    let mut root = tmp();
    write(&mut root, "f.rs", "if a {\n    go();\n}\nif b {\n    go();\n}\n").unwrap();
    let err = edit(&mut root, "f.rs", &one("go();", "stop();", false)).unwrap_err();
    // `go();` occurs twice indented; the un-indented form matches neither
    // uniquely, so this is reported, not applied.
    assert!(err.contains("not unique") || err.contains("whitespace differs"), "{err}");
    assert_eq!(
        root.text("f.rs"),
        "if a {\n    go();\n}\nif b {\n    go();\n}\n",
        "nothing may be written when the repair is ambiguous"
    );
}

#[test]
fn a_non_uniform_whitespace_mismatch_is_diagnosed_with_the_real_text() {
    let mut root = tmp();
    // File is indented with four spaces…
    write(&mut root, "f.rs", "fn f() {\n    let x = 1;\n}\n").unwrap();
    // …and `old` uses a tab, which is not a uniform shift of the file's text.
    let err = edit(&mut root, "f.rs", &one("\tlet x = 1;", "\tlet x = 2;", false)).unwrap_err();
    assert!(err.contains("whitespace differs"), "{err}");
    assert!(err.contains("line 2"), "must locate it: {err}");
    assert!(err.contains("let x = 1;"), "must show the real text: {err}");
}

#[test]
fn a_compounded_failure_names_what_was_ruled_out() {
    let mut root = tmp();
    write(&mut root, "f.rs", "fn main() {\n    println!(\"hi\");\n}\n").unwrap();
    let err = edit(
        &mut root,
        "f.rs",
        &one("     1\tfn other() {\n     2\t    nope();\n", "x", false),
    )
    .unwrap_err();
    assert!(err.contains("line-number gutter"), "{err}");
    assert!(err.contains("does not make it match"), "must not blame the gutter alone: {err}");
}

#[test]
fn a_near_miss_reports_the_closest_block_as_a_diff() {
    let mut root = tmp();
    write(&mut root, "f.rs", "fn compute(a: u32) -> u32 {\n    a + 1\n}\n").unwrap();
    let err = edit(
        &mut root,
        "f.rs",
        &one("fn compute(a: u32) -> u64 {\n    a + 1\n}", "x", false),
    )
    .unwrap_err();
    assert!(err.contains("closest text is at line 1"), "{err}");
    assert!(err.contains("-fn compute(a: u32) -> u64"), "diff: {err}");
    assert!(err.contains("+fn compute(a: u32) -> u32"), "diff: {err}");
}

#[test]
fn an_ambiguous_old_string_reports_where_the_matches_are() {
    let mut root = tmp();
    write(&mut root, "f.txt", "x\nDUP\ny\nDUP\nz\nDUP\n").unwrap();
    let err = edit(&mut root, "f.txt", &one("DUP", "Q", false)).unwrap_err();
    assert!(err.contains("3 matches"), "{err}");
    assert!(err.contains("at lines 2, 4, 6"), "must name the lines: {err}");
}

#[test]
fn a_no_op_edit_says_the_file_is_unchanged() {
    let mut root = tmp();
    write(&mut root, "f.txt", "same\n").unwrap();
    let msg = edit(&mut root, "f.txt", &one("same", "same", false)).unwrap();
    assert!(msg.contains("unchanged"), "{msg}");
}

/// A real project: source worth searching, and the build output and dependency trees
/// that bury it.
fn grep_fixture() -> Workspace {
    let mut root = tmp();
    write(&mut root, "src/main.rs", "fn main() {\n    let token = 1;\n}\n").unwrap();
    write(&mut root, "src/lib.rs", "pub fn token_of() -> u8 { 2 }\n").unwrap();
    write(&mut root, "README.md", "the token is documented here\n").unwrap();
    // Noise that must never be reported.
    write(&mut root, "target/debug/gen.rs", "let token = 999;\n").unwrap();
    write(&mut root, "node_modules/dep/index.js", "var token = 3;\n").unwrap();
    write(&mut root, ".git/COMMIT_EDITMSG", "token\n").unwrap();
    root
}

#[test]
fn grep_finds_matches_and_reports_totals() {
    let root = grep_fixture();
    let out = grep(&root, grep_req("token")).unwrap();
    assert!(out.contains("src/main.rs:2:"), "{out}");
    assert!(out.contains("src/lib.rs:1:"), "{out}");
    assert!(out.contains("README.md:1:"), "{out}");
    assert!(out.contains("3 matches in 3 files"), "{out}");
}

#[test]
fn grep_skips_build_output_and_dependencies() {
    let root = grep_fixture();
    let out = grep(&root, grep_req("token")).unwrap();
    assert!(!out.contains("target/"), "target must be skipped: {out}");
    assert!(!out.contains("node_modules"), "node_modules must be skipped: {out}");
    assert!(!out.contains(".git/"), ".git must be skipped: {out}");
}

#[test]
fn grep_searches_a_skipped_dir_when_asked_explicitly() {
    let root = grep_fixture();
    let out =
        grep(&root, GrepReq { path: Some("target".into()), ..grep_req("token") }).unwrap();
    assert!(out.contains("target/debug/gen.rs:1:"), "{out}");
}

#[test]
fn grep_filters_by_glob() {
    let root = grep_fixture();
    let out = grep(&root, GrepReq { glob: Some("*.md".into()), ..grep_req("token") }).unwrap();
    assert!(out.contains("README.md"), "{out}");
    assert!(!out.contains("main.rs"), "{out}");
    assert!(out.contains("1 match in 1 file"), "{out}");

    // A path glob matches the workspace-relative path too.
    let out =
        grep(&root, GrepReq { glob: Some("src/**/*.rs".into()), ..grep_req("token") }).unwrap();
    assert!(out.contains("src/main.rs"), "{out}");
    assert!(!out.contains("README.md"), "{out}");
}

#[test]
fn grep_honours_regex_literal_and_case_flags() {
    let mut root = tmp();
    write(&mut root, "f.rs", "fn Token() {}\nlet a = b(1);\n").unwrap();

    // Regex by default.
    let out = grep(&root, grep_req("^fn \\w+")).unwrap();
    assert!(out.contains("f.rs:1:"), "{out}");

    // An invalid regex is reported with the way out, not just "invalid".
    let err = grep(&root, grep_req("b(1")).unwrap_err();
    assert!(err.contains("literal=true"), "{err}");
    assert!(err.contains("invalid regex"), "{err}");

    // `b(1)` is *valid* regex (a group), so as a regex it finds nothing —
    // literal=true is what makes it match the text on the page.
    assert!(grep(&root, grep_req("b(1)")).unwrap().contains("no matches"));
    let out = grep(&root, GrepReq { literal: true, ..grep_req("b(1)") }).unwrap();
    assert!(out.contains("f.rs:2:"), "{out}");

    // Case sensitivity is off by default, on by request.
    assert!(grep(&root, grep_req("token")).unwrap().contains("no matches"));
    let out = grep(&root, GrepReq { case_insensitive: true, ..grep_req("token") }).unwrap();
    assert!(out.contains("f.rs:1:"), "{out}");
}

#[test]
fn grep_caps_results_but_still_reports_the_true_total() {
    let mut root = tmp();
    let body: String = (0..100).map(|i| format!("hit {i}\n")).collect();
    write(&mut root, "many.txt", &body).unwrap();
    let out = grep(&root, GrepReq { max_results: Some(10), ..grep_req("hit") }).unwrap();
    assert_eq!(
        out.lines().filter(|l| l.starts_with("many.txt:")).count(),
        10,
        "must cap the listing: {out}"
    );
    assert!(out.contains("100 matches"), "must report the total: {out}");
    assert!(out.contains("showing the first 10"), "{out}");
}

#[test]
fn grep_skips_binaries_and_clips_enormous_lines() {
    let mut root = tmp();
    root.put("bin.dat", b"needle\0\0binary");
    write(&mut root, "min.js", &format!("needle{}\n", "x".repeat(5000))).unwrap();
    let out = grep(&root, grep_req("needle")).unwrap();
    assert!(!out.contains("bin.dat"), "binary must be skipped: {out}");
    assert!(out.contains("binary file(s) skipped"), "{out}");
    assert!(out.contains("[line clipped]"), "{out}");
    // The clipped line must not carry the whole 5k payload.
    assert!(out.len() < 1500, "clipped output too long: {}", out.len());
}

#[test]
fn grep_reports_no_matches_without_pretending_to_fail() {
    let root = grep_fixture();
    let out = grep(&root, grep_req("definitely_absent_xyz")).unwrap();
    assert!(out.contains("no matches"), "{out}");
}

#[test]
fn grep_confines_the_search_path_like_every_other_fileop() {
    let root = grep_fixture();
    assert!(grep(&root, GrepReq { path: Some("../".into()), ..grep_req("token") }).is_err());
    assert!(grep(&root, GrepReq { path: Some("/etc".into()), ..grep_req("token") }).is_err());
    assert!(grep(&root, grep_req("")).is_err(), "empty pattern");
}

#[test]
fn glob_translation_handles_star_doublestar_and_question() {
    assert!(compile_glob("*.rs").unwrap().is_match("main.rs"));
    // A single star does not cross a path separator.
    assert!(!compile_glob("*.rs").unwrap().is_match("src/main.rs"));
    assert!(compile_glob("src/**/*.rs").unwrap().is_match("src/a/b.rs"));
    // `**/` also matches zero directories.
    assert!(compile_glob("src/**/*.rs").unwrap().is_match("src/b.rs"));
    assert!(compile_glob("f?.txt").unwrap().is_match("f1.txt"));
    assert!(!compile_glob("f?.txt").unwrap().is_match("f12.txt"));
    // A dot is literal, not "any char".
    assert!(!compile_glob("*.rs").unwrap().is_match("mainXrs"));
}

#[test]
fn strip_read_gutter_only_fires_on_real_gutters() {
    assert_eq!(
        strip_read_gutter("     1\tfoo\n     2\tbar\n").as_deref(),
        Some("foo\nbar\n")
    );
    // Ordinary source with a tab but no leading number is left alone.
    assert_eq!(strip_read_gutter("foo\tbar"), None);
    // A number-and-tab on only some lines is not a gutter.
    assert_eq!(strip_read_gutter("     1\tfoo\nplain\n"), None);
}

#[test]
fn grep_context_shows_surrounding_lines_with_separators() {
    let mut root = tmp();
    write(&mut root, "f.txt", "a\nb\nNEEDLE\nd\ne\nf\ng\nNEEDLE\ni\n").unwrap();
    let out = grep(&root, GrepReq { context: Some(1), ..grep_req("NEEDLE") }).unwrap();
    // The match line uses `:`, context lines use `-`, like `grep -C`.
    assert!(out.contains("f.txt:3:NEEDLE"), "{out}");
    assert!(out.contains("f.txt:2-b"), "before context: {out}");
    assert!(out.contains("f.txt:4-d"), "after context: {out}");
    assert!(out.contains("f.txt:8:NEEDLE"), "{out}");
    // The two windows are disjoint, so a `--` separator sits between them.
    assert!(out.contains("--"), "must separate disjoint windows: {out}");
    assert!(out.contains("2 matches in 1 file"), "{out}");
}

#[test]
fn large_ignore_files_do_not_count() {
    assert!(gitignore_counts(true, 262144));
    assert!(!gitignore_counts(true, 262145));
    assert!(!gitignore_counts(false, 1));
}

#[test]
fn literal_patterns_are_escaped() {
    assert_eq!(search_pattern("a.b-c", true), "a\\.b\\-c");
    assert_eq!(search_pattern("a.b", false), "a.b");
    assert_eq!(
        search_pattern("\\+*?()|[]{}^$#&~%", true),
        "\\\\\\+\\*\\?\\(\\)\\|\\[\\]\\{\\}\\^\\$\\#\\&\\~%"
    );
}

#[test]
fn grep_context_marks_every_match() {
    let mut root = tmp();
    write(&mut root, "f.txt", "x\nHIT\nHIT\ny\n").unwrap();
    let out = grep(&root, GrepReq { context: Some(1), ..grep_req("HIT") }).unwrap();
    assert_eq!(out, "f.txt:1-x\nf.txt:2:HIT\nf.txt:3:HIT\nf.txt:4-y\n\n2 matches in 1 file\n");
}

#[test]
fn one_re_indented_line_is_no_uniform_shift() {
    let lines = |ls: &[&str]| ls.iter().map(|s| s.to_string()).collect::<Vec<String>>();
    assert!(uniform_shift(&lines(&["a", "b"]), &lines(&["a", "    b"]), 0).is_none());
    let both = uniform_shift(&lines(&["a", "", "b"]), &lines(&["x", "  a", " ", "  b"]), 1);
    assert!(matches!(both, Some(Shift::Deeper(p)) if p == "  "));
    let less = uniform_shift(&lines(&["\ta"]), &lines(&["a"]), 0);
    assert!(matches!(less, Some(Shift::Shallower(p)) if p == "\t"));
    assert!(uniform_shift(&lines(&["", " "]), &lines(&["", ""]), 0).is_none());
}

#[test]
fn blocks_of_lines_past_the_end_are_nothing() {
    let text = "one\ntwo\nthree";
    assert_eq!(line_block(text, 0, 2, true).as_deref(), Some("one\ntwo\n"));
    assert_eq!(line_block(text, 0, 2, false).as_deref(), Some("one\ntwo"));
    assert_eq!(line_block(text, 2, 1, true).as_deref(), Some("three"));
    assert_eq!(line_block(text, 2, 2, true), None);
    assert_eq!(line_block(text, 1, 0, true), None);
    assert_eq!(line_block("", 0, 1, true), None);
}

#[test]
fn grep_files_only_lists_paths_not_lines() {
    let root = grep_fixture();
    let out = grep(&root, GrepReq { files_only: true, ..grep_req("token") }).unwrap();
    // Bare paths, no `path:line:` triples.
    assert!(out.contains("src/main.rs\n"), "{out}");
    assert!(out.contains("README.md\n"), "{out}");
    assert!(!out.contains("main.rs:2:"), "must not print lines: {out}");
    assert!(out.contains("3 files with matches"), "{out}");
}

fn list_req() -> ListReq {
    ListReq {
        path: None,
        glob: None,
        recursive: false,
        max_results: None,
        include_ignored: false,
    }
}

#[test]
fn list_reports_entries_and_marks_directories() {
    let mut root = tmp();
    write(&mut root, "src/main.rs", "x\n").unwrap();
    write(&mut root, "README.md", "y\n").unwrap();
    let out = list(&root, list_req()).unwrap();
    assert!(out.contains("src/\n"), "directory suffixed with /: {out}");
    assert!(out.contains("README.md\n"), "{out}");
    // Non-recursive stops at one level: the file under src/ is not listed.
    assert!(!out.contains("src/main.rs"), "not recursive: {out}");
    assert!(out.contains("2 entries"), "{out}");
}

#[test]
fn list_recursive_skips_build_dirs_and_filters_by_glob() {
    let root = grep_fixture();
    let out = list(
        &root,
        ListReq { glob: Some("*.rs".into()), recursive: true, ..list_req() },
    )
    .unwrap();
    assert!(out.contains("src/main.rs\n"), "{out}");
    assert!(out.contains("src/lib.rs\n"), "{out}");
    assert!(!out.contains("README.md"), "glob filters non-rs: {out}");
    // Build and dependency trees are pruned, like grep.
    assert!(!out.contains("target/"), "target skipped: {out}");
    assert!(!out.contains("node_modules"), "node_modules skipped: {out}");
}

#[test]
fn list_confines_and_rejects_files() {
    let mut root = tmp();
    write(&mut root, "f.txt", "x\n").unwrap();
    assert!(list(&root, ListReq { path: Some("../".into()), ..list_req() }).is_err());
    // A file, not a directory, is a clear error pointing at `read`.
    let err = list(&root, ListReq { path: Some("f.txt".into()), ..list_req() }).unwrap_err();
    assert!(err.contains("not a directory"), "{err}");
}

#[test]
fn read_refuses_a_binary_file_with_an_actionable_message() {
    let mut root = tmp();
    root.put("bin.dat", b"data\0\0more");
    let err = read(&root, "bin.dat", None, None).unwrap_err();
    assert!(err.contains("binary file"), "{err}");
}

#[test]
fn grep_honours_gitignore_and_says_when_it_hid_something() {
    let mut root = tmp();
    write(&mut root, ".gitignore", "/out/\n*.log\n!keep.log\n").unwrap();
    write(&mut root, "src/main.rs", "needle here\n").unwrap();
    write(&mut root, "out/generated.rs", "needle here\n").unwrap();
    write(&mut root, "debug.log", "needle here\n").unwrap();
    write(&mut root, "keep.log", "needle here\n").unwrap();

    let out = grep(&root, grep_req("needle")).unwrap();
    assert!(out.contains("src/main.rs:1:"), "{out}");
    assert!(!out.contains("out/generated.rs"), "ignored dir: {out}");
    assert!(!out.contains("debug.log"), "ignored glob: {out}");
    assert!(out.contains("keep.log:1:"), "negation re-includes: {out}");
    assert!(out.contains("2 matches"), "totals reflect the filter: {out}");
    assert!(out.contains(".gitignore"), "must say it hid something: {out}");

    // And the opt-out really does search them.
    let all = grep(&root, GrepReq { include_ignored: true, ..grep_req("needle") }).unwrap();
    assert!(all.contains("out/generated.rs:1:"), "{all}");
    assert!(all.contains("debug.log:1:"), "{all}");
    assert!(!all.contains("pass include_ignored"), "nothing was hidden: {all}");
}

#[test]
fn gitignore_rules_are_scoped_to_the_directory_that_declares_them() {
    let mut root = tmp();
    write(&mut root, "a/.gitignore", "notes.txt\n").unwrap();
    write(&mut root, "a/notes.txt", "needle\n").unwrap();
    write(&mut root, "b/notes.txt", "needle\n").unwrap();
    let out = grep(&root, grep_req("needle")).unwrap();
    assert!(!out.contains("a/notes.txt"), "{out}");
    assert!(out.contains("b/notes.txt"), "{out}");
}

#[test]
fn list_honours_gitignore_too() {
    let mut root = tmp();
    write(&mut root, ".gitignore", "build/\n").unwrap();
    write(&mut root, "src/main.rs", "x\n").unwrap();
    write(&mut root, "keep/thing.rs", "x\n").unwrap();
    // `build` is skipped in any case, so use a name only .gitignore covers.
    write(&mut root, ".gitignore", "keep/\n").unwrap();
    let out = list(&root, ListReq { recursive: true, ..list_req() }).unwrap();
    assert!(out.contains("src/main.rs"), "{out}");
    assert!(!out.contains("keep/thing.rs"), "{out}");
    assert!(out.contains(".gitignore"), "must report the filter: {out}");
    let all =
        list(&root, ListReq { recursive: true, include_ignored: true, ..list_req() }).unwrap();
    assert!(all.contains("keep/thing.rs"), "{all}");
}

#[test]
fn gitignore_patterns_follow_gits_anchoring_rules() {
    let cases: &[(&str, &str, bool, bool)] = &[
        // (pattern, candidate path, is_dir, ignored?)
        ("*.log", "a/b/x.log", false, true),
        ("/x.log", "a/x.log", false, false),
        ("/x.log", "x.log", false, true),
        ("build/", "build", true, true),
        ("build/", "build", false, false),
        ("build/", "build/x.o", false, true),
        ("# comment", "comment", false, false),
        ("src/*.rs", "src/a.rs", false, true),
        ("src/*.rs", "src/deep/a.rs", false, false),
        ("**/gen", "a/b/gen", true, true),
    ];
    for (pattern, candidate, is_dir, want) in cases {
        let rules = IgnoreRules::new(&vec![(String::new(), format!("{pattern}\n"))]);
        let got = rules.is_ignored(candidate, *is_dir);
        assert_eq!(got, *want, "pattern {pattern:?} against {candidate:?} (dir={is_dir})");
    }
}

#[test]
fn the_last_rule_that_matches_decides() {
    let rules: Vec<IgnoreRule> = compile_ignore("*.log\n!keep.log\nkeep.log\n");
    assert!(ignored_by(&vec![&rules], "keep.log", false));
    let rules: Vec<IgnoreRule> = compile_ignore("*.log\n!keep.log\n");
    assert!(!ignored_by(&vec![&rules], "keep.log", false));
    assert!(ignored_by(&vec![&rules], "other.log", false));
}

#[test]
fn reports_are_exact() {
    let mut root = tmp();
    assert_eq!(write(&mut root, "a.txt", "héllo").unwrap(), "created a.txt (6 bytes)\n");
    assert_eq!(
        read(&root, "a.txt", None, None).unwrap(),
        "     1\théllo\n"
    );
    let out = grep(&root, grep_req("h")).unwrap();
    assert_eq!(out, "a.txt:1:héllo\n\n1 match in 1 file\n");
    let out = list(&root, list_req()).unwrap();
    assert_eq!(out, "a.txt\n\n1 entry\n");
    assert_eq!(
        grep(&root, GrepReq { path: Some("nowhere".into()), ..grep_req("h") }).unwrap_err(),
        "nowhere does not exist"
    );
    assert_eq!(
        list(&root, ListReq { path: Some("nowhere".into()), ..list_req() }).unwrap_err(),
        "nowhere does not exist"
    );
    assert_eq!(list(&tmp(), list_req()).unwrap(), "the workspace is empty\n");
}

#[test]
fn a_listing_is_capped_with_its_true_total() {
    let mut root = tmp();
    for i in 0..12 {
        root.put(&format!("f{i:02}"), b"");
    }
    let out = list(&root, ListReq { max_results: Some(3), ..list_req() }).unwrap();
    assert_eq!(
        out,
        "f00\nf01\nf02\n\n12 entries; showing the first 3. Pass `glob`/`path` or raise `max_results` to see the rest\n"
    );
}
