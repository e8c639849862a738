//! Paths as text, and the names derived from them.

use crate::text::{chars_of, strs};
use crate::words::{join, joined, segments, split_segments, splitting_undoes_joining};
use vstd::prelude::*;

verus! {

broadcast use vstd::string::group_string_axioms;

/// A path begins at the root.
pub open spec fn absolute(p: Seq<char>) -> bool {
    p.len() > 0 && p[0] == '/'
}

/// The components of the first `n` segments of a path: a `.` counts only where a
/// relative path begins with it.
pub open spec fn components_to(p: Seq<char>, n: int) -> Seq<Seq<char>>
    decreases n,
{
    if n <= 0 {
        seq![]
    } else if segments(p, '/')[n - 1] == "."@ && (n > 1 || absolute(p)) {
        components_to(p, n - 1)
    } else {
        components_to(p, n - 1).push(segments(p, '/')[n - 1])
    }
}

/// The components of a path.
pub open spec fn components(p: Seq<char>) -> Seq<Seq<char>> {
    components_to(p, segments(p, '/').len() as int)
}

/// `p` lies at or below `base`, component by component.
pub open spec fn lies_under(p: Seq<char>, base: Seq<char>) -> bool {
    &&& absolute(p) == absolute(base)
    &&& components(base).len() <= components(p).len()
    &&& components(p).take(components(base).len() as int) == components(base)
}

fn is_absolute(p: &str) -> (r: bool)
    ensures
        r == absolute(p@),
{
    let cs = chars_of(p);
    cs.len() > 0 && cs[0] == '/'
}

/// The components of a path.
pub fn split_path(p: &str) -> (r: Vec<String>)
    ensures
        strs(r@) == components(p@),
{
    let segs = split_segments(p, '/');
    let abs = is_absolute(p);
    let ghost gs = strs(segs@);
    let mut out: Vec<String> = Vec::new();
    let mut i: usize = 0;
    assert(strs(out@) =~= seq![]);
    while i < segs.len()
        invariant
            i <= segs@.len(),
            gs == strs(segs@),
            gs == segments(p@, '/'),
            abs == absolute(p@),
            strs(out@) == components_to(p@, i as int),
        decreases segs.len() - i,
    {
        assert(gs[i as int] == segs@[i as int]@);
        if crate::text::same(&segs[i], ".") && (i > 0 || abs) {
        } else {
            let ghost before = strs(out@);
            out.push(segs[i].clone());
            assert(strs(out@) =~= before.push(gs[i as int]));
        }
        i = i + 1;
    }
    assert(gs.len() == segs@.len());
    out
}

/// Whether `p` lies at or below `base`.
pub fn starts_with_path(p: &str, base: &str) -> (r: bool)
    ensures
        r == lies_under(p@, base@),
{
    if is_absolute(p) != is_absolute(base) {
        return false;
    }
    let a = split_path(p);
    let b = split_path(base);
    assert(strs(a@).len() == a@.len());
    assert(strs(b@).len() == b@.len());
    if b.len() > a.len() {
        return false;
    }
    let mut i: usize = 0;
    while i < b.len()
        invariant
            i <= b@.len() <= a@.len(),
            strs(a@) == components(p@),
            strs(b@) == components(base@),
            strs(a@).len() == a@.len(),
            strs(b@).len() == b@.len(),
            forall|k: int| 0 <= k < i ==> #[trigger] strs(a@)[k] == strs(b@)[k],
        decreases b.len() - i,
    {
        assert(strs(a@)[i as int] == a@[i as int]@);
        assert(strs(b@)[i as int] == b@[i as int]@);
        if a[i] != b[i] {
            assert(components(p@).take(b@.len() as int)[i as int] == strs(a@)[i as int]);
            return false;
        }
        i = i + 1;
    }
    assert(components(p@).take(b@.len() as int) =~= components(base@));
    true
}

/// The name that a path ends in: its last component, unless that leads up or is the
/// directory itself.
pub open spec fn last_name(p: Seq<char>) -> Option<Seq<char>> {
    let cs = components(p);
    if cs.len() == 0 || cs.last() == ".."@ || cs.last() == "."@ {
        None
    } else {
        Some(cs.last())
    }
}

/// The name that a path ends in.
pub fn file_name(p: &str) -> (r: Option<String>)
    ensures
        match r {
            Some(n) => last_name(p@) == Some(n@),
            None => last_name(p@) is None,
        },
{
    let cs = split_path(p);
    assert(strs(cs@).len() == cs@.len());
    if cs.len() == 0 {
        return None;
    }
    let last = cs[cs.len() - 1].clone();
    assert(strs(cs@).last() == last@);
    if crate::text::same(&last, "..") || crate::text::same(&last, ".") {
        None
    } else {
        Some(last)
    }
}

/// The directory that a path lies in, where it has one.
pub open spec fn parent_path(p: Seq<char>) -> Option<Seq<char>> {
    let cs = components(p);
    if cs.len() == 0 {
        None
    } else {
        Some(
            (if absolute(p) {
                "/"@
            } else {
                ""@
            }) + join(cs.drop_last(), "/"@),
        )
    }
}

/// The directory that a path lies in.
pub fn parent(p: &str) -> (r: Option<String>)
    ensures
        match r {
            Some(d) => parent_path(p@) == Some(d@),
            None => parent_path(p@) is None,
        },
{
    let mut cs = split_path(p);
    assert(strs(cs@).len() == cs@.len());
    if cs.len() == 0 {
        return None;
    }
    let ghost all = strs(cs@);
    let _ = cs.pop();
    assert(strs(cs@) =~= all.drop_last());
    let mut out = if is_absolute(p) {
        "/".to_owned()
    } else {
        "".to_owned()
    };
    out.push_str(&joined(&cs, "/"));
    Some(out)
}

/// `path` where it is absolute, and else below `base`.
pub open spec fn below(base: Seq<char>, path: Seq<char>) -> Seq<char> {
    if absolute(path) {
        path
    } else if base.len() == 0 || base.last() == '/' {
        base + path
    } else {
        base + "/"@ + path
    }
}

/// The host's path of a mount: as it is given where it is absolute, and else below the
/// project's root.
pub fn mount_source(root: &str, source: &str) -> (r: String)
    ensures
        r@ == below(root@, source@),
{
    if is_absolute(source) {
        return source.to_owned();
    }
    let cs = chars_of(root);
    let mut out = root.to_owned();
    if cs.len() > 0 && cs[cs.len() - 1] != '/' {
        out.push_str("/");
    }
    out.push_str(source);
    out
}

// ---------------------------------------------------------------------------
// Hashes
// ---------------------------------------------------------------------------

/// What the standard hasher makes of a path.
pub uninterp spec fn path_hash(path: Seq<char>) -> u64;

/// `BuildHasher::hash_one` of a `std::path::Path`, with the `DefaultHasher` that
/// `BuildHasherDefault` makes: it starts the same every time, so the result is a
/// function of the path. That is so within one build: the standard library does not
/// promise the same hash on other platforms, nor in its other releases.
#[verifier::external_body]
fn hash_path(path: &str) -> (r: u64)
    ensures
        r == path_hash(path@),
{
    let fresh: std::hash::BuildHasherDefault<std::collections::hash_map::DefaultHasher> =
        Default::default();
    std::hash::BuildHasher::hash_one(&fresh, std::path::Path::new(path))
}

/// What the standard hasher makes of bytes.
pub uninterp spec fn bytes_hash(bytes: Seq<u8>) -> u64;

/// `BuildHasher::hash_one` of a byte vector, with the `DefaultHasher` that
/// `BuildHasherDefault` makes: within one build a function of the bytes. The standard
/// library does not promise the same hash on other platforms, nor in its other releases.
#[verifier::external_body]
fn hash_bytes(bytes: &Vec<u8>) -> (r: u64)
    ensures
        r == bytes_hash(bytes@),
{
    let fresh: std::hash::BuildHasherDefault<std::collections::hash_map::DefaultHasher> =
        Default::default();
    std::hash::BuildHasher::hash_one(&fresh, bytes)
}

/// The low half of a hash.
pub open spec fn low_half(h: u64) -> u32 {
    (h % 0x1_0000_0000) as u32
}

fn low_bits(h: u64) -> (r: u32)
    ensures
        r == low_half(h),
{
    (h % 0x1_0000_0000) as u32
}

/// A hash of a project's path, the same in every run of one build.
pub fn project_hash(root: &str) -> (r: u32)
    ensures
        r == low_half(path_hash(root@)),
{
    low_bits(hash_path(root))
}

/// A hash of a file's content, the same in every run of one build.
pub fn content_hash(bytes: &Vec<u8>) -> (r: u32)
    ensures
        r == low_half(bytes_hash(bytes@)),
{
    low_bits(hash_bytes(bytes))
}

/// The character of a hexadecimal digit.
pub open spec fn hex_digit(d: int) -> char {
    if d < 10 {
        ('0' as int + d) as char
    } else {
        ('a' as int + d - 10) as char
    }
}

/// The low `width` hexadecimal digits of `n`, high digits first.
pub open spec fn hex(n: nat, width: nat) -> Seq<char>
    decreases width,
{
    if width == 0 {
        seq![]
    } else {
        hex(n / 16, (width - 1) as nat).push(hex_digit((n % 16) as int))
    }
}

fn hex_char(d: u32) -> (r: char)
    requires
        d < 16,
    ensures
        r == hex_digit(d as int),
{
    if d < 10 {
        (48u8 + d as u8) as char
    } else {
        (97u8 + (d - 10) as u8) as char
    }
}

fn hex_wide(n: u32, width: u32) -> (r: String)
    ensures
        r@ == hex(n as nat, width as nat),
    decreases width,
{
    if width == 0 {
        let s = String::new();
        assert(s@ =~= seq![]);
        s
    } else {
        let mut s = hex_wide(n / 16, width - 1);
        s.push(hex_char(n % 16));
        s
    }
}

/// `n` in eight hexadecimal digits.
pub open spec fn hex8(n: u32) -> Seq<char> {
    hex(n as nat, 8)
}

/// `n` in eight hexadecimal digits.
pub fn hexadecimal(n: u32) -> (r: String)
    ensures
        r@ == hex8(n),
{
    hex_wide(n, 8)
}

/// The key of a repository's overlay, the same for all of its worktrees: a hash of
/// the repository's root.
pub fn repo_key(repo_root: &str) -> (r: String)
    ensures
        r@ == hex8(low_half(path_hash(repo_root@))),
{
    hexadecimal(project_hash(repo_root))
}

// ---------------------------------------------------------------------------
// The name of a container
// ---------------------------------------------------------------------------

/// `s` in lower case.
pub uninterp spec fn lower(s: Seq<char>) -> Seq<char>;

/// A letter in lower case, of ASCII.
pub open spec fn ascii_lower(c: char) -> char {
    if 'A' <= c <= 'Z' {
        (c as int + 32) as char
    } else {
        c
    }
}

/// A text of ASCII characters alone.
pub open spec fn all_ascii(s: Seq<char>) -> bool {
    forall|i: int| 0 <= i < s.len() ==> (#[trigger] s[i]) as int <= 127
}

/// `str::to_lowercase`, a function of the text: nothing in it is a capital of ASCII, and
/// of ASCII text the letters `A` to `Z` become `a` to `z`, the rest staying as it is. The
/// case of other characters is left to the Unicode tables.
#[verifier::external_body]
pub(crate) fn to_lower(s: &str) -> (r: String)
    ensures
        r@ == lower(s@),
        forall|i: int| 0 <= i < r@.len() ==> !('A' <= #[trigger] r@[i] <= 'Z'),
        all_ascii(s@) ==> r@ == s@.map_values(|c: char| ascii_lower(c)),
{
    s.to_lowercase()
}

/// A letter or digit of ASCII.
pub open spec fn ascii_alnum(c: char) -> bool {
    ('a' <= c <= 'z') || ('A' <= c <= 'Z') || ('0' <= c <= '9')
}

/// Whether `c` is a letter or digit of ASCII.
pub fn is_ascii_alnum(c: char) -> (r: bool)
    ensures
        r == ascii_alnum(c),
{
    ('a' <= c && c <= 'z') || ('A' <= c && c <= 'Z') || ('0' <= c && c <= '9')
}

/// The first `room` of the characters of `s` that may stand in a name.
pub open spec fn name_chars(s: Seq<char>, room: int) -> Seq<char>
    decreases s.len(),
{
    if s.len() == 0 || room <= 0 {
        seq![]
    } else if ascii_alnum(s[0]) || s[0] == '-' || s[0] == '_' {
        seq![s[0]] + name_chars(s.drop_first(), room - 1)
    } else {
        name_chars(s.drop_first(), room)
    }
}

fn take_name_chars(s: &str, room: usize) -> (r: String)
    ensures
        r@ == name_chars(s@, room as int),
{
    let cs = chars_of(s);
    let mut out = String::new();
    let mut left: usize = room;
    let mut i: usize = 0;
    assert(cs@.skip(0) =~= cs@);
    assert(out@ + name_chars(cs@, room as int) =~= name_chars(cs@, room as int));
    while i < cs.len() && left > 0
        invariant
            i <= cs@.len(),
            cs@ == s@,
            out@ + name_chars(cs@.skip(i as int), left as int) == name_chars(s@, room as int),
        decreases cs.len() - i,
    {
        let c = cs[i];
        let ghost rest = cs@.skip(i as int);
        let ghost before = out@;
        assert(rest[0] == c);
        assert(rest.drop_first() =~= cs@.skip(i + 1));
        if is_ascii_alnum(c) || c == '-' || c == '_' {
            out.push(c);
            left = left - 1;
            assert(before + (seq![c] + name_chars(cs@.skip(i + 1), left as int)) =~= out@
                + name_chars(cs@.skip(i + 1), left as int));
        }
        i = i + 1;
    }
    assert(out@ + seq![] =~= out@);
    out
}

/// A character that the name of a container takes over: a small letter, a digit, a dash
/// or an underscore.
pub open spec fn plain_char(c: char) -> bool {
    ('a' <= c <= 'z') || ('0' <= c <= '9') || c == '-' || c == '_'
}

/// The part of a container's name that comes from its project's, given in lower case.
pub fn name_slug(lowered: &str) -> (r: String)
    ensures
        r@ == name_chars(lowered@, 24),
{
    take_name_chars(lowered, 24)
}

/// No more characters are taken than there is room for, each is one that may stand in a
/// name, and each comes from the text.
pub proof fn slugs_are_short(s: Seq<char>, room: nat)
    ensures
        name_chars(s, room as int).len() <= room,
        forall|i: int|
            #![trigger name_chars(s, room as int)[i]]
            0 <= i < name_chars(s, room as int).len() ==> {
                let c = name_chars(s, room as int)[i];
                (ascii_alnum(c) || c == '-' || c == '_') && s.contains(c)
            },
    decreases s.len(),
{
    if s.len() > 0 && room > 0 {
        let taken = ascii_alnum(s[0]) || s[0] == '-' || s[0] == '_';
        let left = if taken {
            (room - 1) as nat
        } else {
            room
        };
        let rest = s.drop_first();
        slugs_are_short(rest, left);
        assert forall|i: int|
            #![trigger name_chars(s, room as int)[i]]
            0 <= i < name_chars(s, room as int).len() implies {
            let c = name_chars(s, room as int)[i];
            (ascii_alnum(c) || c == '-' || c == '_') && s.contains(c)
        } by {
            let all = name_chars(s, room as int);
            if taken && i == 0 {
                assert(all[0] == s[0]);
            } else {
                let k = if taken {
                    i - 1
                } else {
                    i
                };
                let c = name_chars(rest, left as int)[k];
                assert(all[i] == c);
                let m = choose|m: int| 0 <= m < rest.len() && rest[m] == c;
                assert(s[m + 1] == c);
            }
        }
    }
}

/// What the name of a project's container takes over from the project's.
pub open spec fn container_slug(root: Seq<char>) -> Seq<char> {
    let name = match last_name(root) {
        Some(n) => n,
        None => "project"@,
    };
    name_chars(lower(name), 24)
}

/// A stable, unique name for a project's container.
pub open spec fn container_name(root: Seq<char>) -> Seq<char> {
    "cowboy-agent-"@ + container_slug(root) + "-"@ + hex8(low_half(path_hash(root)))
}

/// A stable, unique name for a project's container. What it takes over from the project's
/// name is short, and has no capitals.
pub fn container_name_for(root: &str) -> (r: String)
    ensures
        r@ == container_name(root@),
        container_slug(root@).len() <= 24,
        forall|i: int|
            0 <= i < container_slug(root@).len() ==> plain_char(
                #[trigger] container_slug(root@)[i],
            ),
{
    let name = match file_name(root) {
        Some(n) => n,
        None => "project".to_owned(),
    };
    let low = to_lower(&name);
    proof {
        slugs_are_short(low@, 24);
        assert forall|i: int| 0 <= i < container_slug(root@).len() implies plain_char(
            #[trigger] container_slug(root@)[i],
        ) by {
            let c = name_chars(low@, 24)[i];
            let k = choose|k: int| 0 <= k < low@.len() && low@[k] == c;
            assert(!('A' <= low@[k] <= 'Z'));
        }
    }
    let mut out = "cowboy-agent-".to_owned();
    out.push_str(&name_slug(&low));
    out.push_str("-");
    out.push_str(&hexadecimal(project_hash(root)));
    out
}

// ---------------------------------------------------------------------------
// Laws
// ---------------------------------------------------------------------------

/// The path from the root of the file system that these names spell.
pub open spec fn rooted(names: Seq<Seq<char>>) -> Seq<char> {
    seq!['/'] + join(names, seq!['/'])
}

/// Names that lead down alone: none is empty, `.` or `..`, and none holds a slash.
pub open spec fn plain_names(names: Seq<Seq<char>>) -> bool {
    forall|i: int|
        0 <= i < names.len() ==> (#[trigger] names[i]).len() > 0 && names[i] != "."@ && names[i]
            != ".."@ && !names[i].contains('/')
}

/// The names of a path are read back from it.
pub proof fn names_are_read_back(names: Seq<Seq<char>>)
    requires
        plain_names(names),
    ensures
        absolute(rooted(names)),
        components(rooted(names)) == names,
{
    let p = rooted(names);
    let tail = join(names, seq!['/']);
    splitting_undoes_joining(names, '/');
    assert(p[0] == '/');
    assert(p.drop_first() =~= tail);
    assert(segments(p, '/') == segments(tail, '/'));
    lemma_components_plain(p, names.len() as int);
    assert(names.take(names.len() as int) =~= names);
}

proof fn lemma_components_plain(p: Seq<char>, n: int)
    requires
        0 <= n <= segments(p, '/').len(),
        plain_names(segments(p, '/')),
    ensures
        components_to(p, n) == segments(p, '/').take(n),
    decreases n,
{
    let all = segments(p, '/');
    if n > 0 {
        lemma_components_plain(p, n - 1);
        assert(all[n - 1] != "."@);
        assert(all.take(n - 1).push(all[n - 1]) =~= all.take(n));
    } else {
        assert(all.take(0) =~= seq![]);
    }
}

/// The name of a path is its last one, and its parent the path of the others.
pub proof fn paths_come_apart(names: Seq<Seq<char>>)
    requires
        plain_names(names),
        names.len() > 0,
    ensures
        last_name(rooted(names)) == Some(names.last()),
        parent_path(rooted(names)) == Some(rooted(names.drop_last())),
{
    names_are_read_back(names);
    assert(names[names.len() - 1] == names.last());
    reveal_strlit("/");
    assert("/"@ =~= seq!['/']);
}

/// A path lies under another exactly where that other's names are its first ones: whole
/// names, never parts of them.
pub proof fn whole_names_decide(a: Seq<Seq<char>>, b: Seq<Seq<char>>)
    requires
        plain_names(a),
        plain_names(b),
    ensures
        lies_under(rooted(a), rooted(b)) <==> b.len() <= a.len() && forall|i: int|
            0 <= i < b.len() ==> #[trigger] a[i] == b[i],
{
    names_are_read_back(a);
    names_are_read_back(b);
    if b.len() <= a.len() {
        if forall|i: int| 0 <= i < b.len() ==> #[trigger] a[i] == b[i] {
            assert(a.take(b.len() as int) =~= b);
        }
        if a.take(b.len() as int) == b {
            assert forall|i: int| 0 <= i < b.len() implies #[trigger] a[i] == b[i] by {
                assert(a.take(b.len() as int)[i] == a[i]);
            }
        }
    }
}

/// A path is taken as it is where it begins at the root of the file system, and else below
/// the other, with one slash between them.
pub proof fn relative_paths_are_below(base: Seq<char>, path: Seq<char>)
    ensures
        path.len() > 0 && path[0] == '/' ==> below(base, path) == path,
        path.len() == 0 || path[0] != '/' ==> below(base, path) == base + (if base.len() > 0
            && base.last() != '/' {
            seq!['/']
        } else {
            seq![]
        }) + path,
{
    reveal_strlit("/");
    assert("/"@ =~= seq!['/']);
    assert(base + Seq::<char>::empty() =~= base);
}

/// A number in hexadecimal has as many digits as it is given room: the last stands for its
/// lowest four bits, and those in front of it for the rest.
pub proof fn hexadecimals_go_by_four_bits(n: nat, width: nat, i: int)
    requires
        0 <= i < width,
    ensures
        hex(n, width).len() == width,
        i == width - 1 ==> hex(n, width)[i] == hex_digit((n % 16) as int),
        i < width - 1 ==> hex(n, width)[i] == hex(n / 16, (width - 1) as nat)[i],
    decreases width,
{
    if width > 1 {
        hexadecimals_go_by_four_bits(n / 16, (width - 1) as nat, 0);
    } else {
        assert(hex(n / 16, 0).len() == 0);
    }
}

} // verus!
