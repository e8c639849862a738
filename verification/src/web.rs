//! The web interface: who may use it, what its pages may do, and what of a session's
//! journal is sent to a browser.

use crate::search::{at, contains, find, find_chars, has, lemma_find, lemma_find_shift,
    starts_with, strip_prefix};
use crate::text::{blank, chars_of, is_blank, string_of, strs};
use vstd::prelude::*;
use vstd::utf8::encode_utf8;

verus! {

broadcast use vstd::string::group_string_axioms;

// ---------------------------------------------------------------------------
// Where it may listen
// ---------------------------------------------------------------------------

/// An address.
#[derive(Debug, Clone, Copy)]
pub enum Ip {
    V4([u8; 4]),
    V6([u16; 8]),
}

/// An address of this machine alone.
pub open spec fn loopback(ip: Ip) -> bool {
    match ip {
        Ip::V4(o) => o@[0] == 127,
        Ip::V6(s) => s@ == seq![0u16, 0, 0, 0, 0, 0, 0, 1],
    }
}

/// An address that Tailscale gives: of 100.64.0.0/10, or of fd7a:115c:a1e0::/48.
pub open spec fn tailscale(ip: Ip) -> bool {
    match ip {
        Ip::V4(o) => o@[0] == 100 && 64 <= o@[1] < 128,
        Ip::V6(s) => s@[0] == 0xfd7a && s@[1] == 0x115c && s@[2] == 0xa1e0,
    }
}

/// Whether an address is of this machine alone.
pub fn is_loopback(ip: &Ip) -> (r: bool)
    ensures
        r == loopback(*ip),
{
    match ip {
        Ip::V4(o) => o[0] == 127,
        Ip::V6(s) => {
            let r = s[0] == 0 && s[1] == 0 && s[2] == 0 && s[3] == 0 && s[4] == 0 && s[5] == 0
                && s[6] == 0 && s[7] == 1;
            proof {
                if r {
                    assert(s@ =~= seq![0u16, 0, 0, 0, 0, 0, 0, 1]);
                } else if s@ == seq![0u16, 0, 0, 0, 0, 0, 0, 1] {
                    assert(s@[0] == 0 && s@[1] == 0 && s@[2] == 0 && s@[3] == 0);
                    assert(s@[4] == 0 && s@[5] == 0 && s@[6] == 0 && s@[7] == 1);
                }
            }
            r
        },
    }
}

/// Whether Tailscale gives an address.
pub fn is_tailscale(ip: &Ip) -> (r: bool)
    ensures
        r == tailscale(*ip),
{
    match ip {
        Ip::V4(o) => o[0] == 100 && 64 <= o[1] && o[1] < 128,
        Ip::V6(s) => s[0] == 0xfd7a && s[1] == 0x115c && s[2] == 0xa1e0,
    }
}

/// Whether to listen on an address, written `shown`: on this machine alone, on what
/// Tailscale protects, or on anything where that is asked for.
pub fn guard_bind(ip: &Ip, shown: &str, allow_lan: bool) -> (r: Result<(), String>)
    ensures
        r is Ok <==> loopback(*ip) || tailscale(*ip) || allow_lan,
        r is Err ==> r->Err_0@ == "refusing to bind "@ + shown@
            + ": not loopback or a Tailscale address, so the auth token would travel in cleartext. Bind 127.0.0.1 and tunnel in, use your Tailscale IP (100.64.0.0/10), or pass --lan if this network is trusted."@,
{
    if is_loopback(ip) || is_tailscale(ip) || allow_lan {
        return Ok(());
    }
    let mut msg = "refusing to bind ".to_owned();
    msg.push_str(shown);
    msg.push_str(
        ": not loopback or a Tailscale address, so the auth token would travel in cleartext. Bind 127.0.0.1 and tunnel in, use your Tailscale IP (100.64.0.0/10), or pass --lan if this network is trusted.",
    );
    Err(msg)
}

/// How the interface is set up.
#[derive(Debug)]
pub struct WebConfig {
    pub enabled: bool,
    pub bind: String,
    pub allow_lan: bool,
    pub token: String,
}

/// Turns the interface on: where it listens is changed where that is asked for, and a
/// token is made where there is none.
pub fn web_on(cfg: WebConfig, bind: Option<String>, lan: bool, fresh_token: String) -> (r: WebConfig)
    ensures
        r.enabled,
        r.bind == match bind {
            Some(b) => b,
            None => cfg.bind,
        },
        r.allow_lan == (cfg.allow_lan || lan),
        r.token == if cfg.token@.len() == 0 {
            fresh_token
        } else {
            cfg.token
        },
{
    let keep = !cfg.token.as_str().is_empty();
    WebConfig {
        enabled: true,
        bind: match bind {
            Some(b) => b,
            None => cfg.bind,
        },
        allow_lan: cfg.allow_lan || lan,
        token: if keep {
            cfg.token
        } else {
            fresh_token
        },
    }
}

// ---------------------------------------------------------------------------
// Who may use it
// ---------------------------------------------------------------------------

/// Compares two tokens, looking at every byte whatever they hold: how long it takes
/// tells nothing but their length.
pub fn ct_eq(a: &str, b: &str) -> (r: bool)
    ensures
        r == (a@ == b@),
{
    let x = a.as_bytes();
    let y = b.as_bytes();
    proof {
        vstd::utf8::encode_utf8_decode_utf8(a@);
        vstd::utf8::encode_utf8_decode_utf8(b@);
    }
    if x.len() != y.len() {
        return false;
    }
    let mut diff: u8 = 0;
    let mut i: usize = 0;
    while i < x.len()
        invariant
            i <= x@.len() == y@.len(),
            diff == 0 <==> forall|k: int| 0 <= k < i ==> #[trigger] x@[k] == y@[k],
        decreases x.len() - i,
    {
        let (p, q) = (x[i], y[i]);
        assert((diff | (p ^ q)) == 0 <==> (diff == 0 && p == q)) by (bit_vector);
        diff = diff | (p ^ q);
        i = i + 1;
    }
    proof {
        if diff == 0 {
            assert(x@ =~= y@);
        }
    }
    diff == 0
}

/// The token that a request presents: that of its header, else that of its query.
pub open spec fn presented(header: Option<Seq<char>>, query: Option<Seq<char>>) -> Option<
    Seq<char>,
> {
    match header {
        Some(h) => if starts_with(h, "Bearer "@) {
            Some(h.skip("Bearer "@.len() as int))
        } else {
            query
        },
        None => query,
    }
}

/// Whether a request presents the right token. One that presents none is refused.
pub fn authed(token: &str, header: &Option<String>, query: &Option<String>) -> (r: bool)
    ensures
        r == (presented(crate::grep::opt(*header), crate::grep::opt(*query)) == Some(token@)),
{
    match header {
        Some(h) => match strip_prefix(h, "Bearer ") {
            Some(t) => {
                return ct_eq(&t, token);
            },
            None => {},
        },
        None => {},
    }
    match query {
        Some(q) => ct_eq(q, token),
        None => false,
    }
}

// ---------------------------------------------------------------------------
// What its pages may do
// ---------------------------------------------------------------------------

/// The SHA-256 digest of bytes.
pub uninterp spec fn sha256(bytes: Seq<u8>) -> Seq<u8>;

/// `sha2::Sha256::digest`, a function of the bytes.
#[verifier::external_body]
fn digest(bytes: &[u8]) -> (r: Vec<u8>)
    ensures
        r@ == sha256(bytes@),
{
    <sha2::Sha256 as sha2::Digest>::digest(bytes).to_vec()
}

/// Bytes in base64, in the standard alphabet and padded.
pub uninterp spec fn base64_of(bytes: Seq<u8>) -> Seq<char>;

/// `base64`'s standard engine, `encode`: a function of the bytes.
#[verifier::external_body]
fn base64_text(bytes: &Vec<u8>) -> (r: String)
    ensures
        r@ == base64_of(bytes@),
{
    base64::Engine::encode(&base64::engine::general_purpose::STANDARD, bytes)
}

/// What a page's policy calls a script: the digest of its text.
pub open spec fn script_source(body: Seq<char>) -> Seq<char> {
    "'sha256-"@ + base64_of(sha256(encode_utf8(body))) + "'"@
}

fn script_hash(body: &str) -> (r: String)
    ensures
        r@ == script_source(body@),
{
    let mut out = "'sha256-".to_owned();
    out.push_str(&base64_text(&digest(body.as_bytes())));
    out.push_str("'");
    out
}

/// A page from `from` on, without its comments; one that does not end takes the rest.
pub open spec fn uncommented(html: Seq<char>, from: int) -> Seq<char>
    decreases html.len() - from,
{
    match find(html, "<!--"@, from) {
        Some(o) => {
            proof {
                lemma_find(html, "<!--"@, from);
                lemma_find(html, "-->"@, o);
            }
            match find(html, "-->"@, o) {
                Some(c) => if 0 <= from < c + 3 <= html.len() {
                    html.subrange(from, o) + uncommented(html, c + 3)
                } else {
                    seq![]
                },
                None => html.subrange(from, o),
            }
        },
        None => html.skip(from),
    }
}

/// A page without its comments.
pub fn strip_html_comments(html: &str) -> (r: String)
    ensures
        r@ == uncommented(html@, 0),
{
    proof {
        reveal_strlit("<!--");
        reveal_strlit("-->");
    }
    let t = chars_of(html);
    let open = chars_of("<!--");
    let close = chars_of("-->");
    let mut out = String::new();
    let mut from: usize = 0;
    assert(out@ + uncommented(html@, 0) =~= uncommented(html@, 0));
    loop
        invariant
            t@ == html@,
            open@ == "<!--"@,
            close@ == "-->"@,
            close@.len() == 3,
            from <= t.len(),
            out@ + uncommented(html@, from as int) == uncommented(html@, 0),
        decreases t@.len() - from,
    {
        let ghost before = out@;
        match find_chars(&t, &open, from) {
            Some(o) => {
                let keep = string_of(&t, from, o);
                out.push_str(&keep);
                match find_chars(&t, &close, o) {
                    Some(c) => {
                        proof {
                            lemma_find(html@, "-->"@, o as int);
                            assert(from < c + 3 <= html@.len());
                            let rest = uncommented(html@, c + 3);
                            assert(before + (html@.subrange(from as int, o as int) + rest)
                                =~= before + html@.subrange(from as int, o as int) + rest);
                        }
                        from = c + 3;
                    },
                    None => {
                        return out;
                    },
                }
            },
            None => {
                let keep = string_of(&t, from, t.len());
                assert(keep@ =~= html@.skip(from as int));
                out.push_str(&keep);
                return out;
            },
        }
    }
}

/// The texts of the scripts that stand in a page from `from` on: those that are not
/// fetched from elsewhere and are not blank.
pub open spec fn inline_scripts(code: Seq<char>, from: int) -> Seq<Seq<char>>
    decreases code.len() - from,
{
    match find(code, "<script"@, from) {
        None => seq![],
        Some(o) => {
            let head = o + "<script"@.len();
            match find(code, ">"@, head) {
                None => seq![],
                Some(g) => match find(code, "</script>"@, g + 1) {
                    None => seq![],
                    Some(e) => {
                        let body = code.subrange(g + 1, e);
                        let next = e + "</script>"@.len();
                        if next <= from || next > code.len() {
                            seq![]
                        } else if contains(code.subrange(head, g), "src="@) || blank(body) {
                            inline_scripts(code, next)
                        } else {
                            seq![body] + inline_scripts(code, next)
                        }
                    },
                },
            }
        },
    }
}

/// What a policy calls each of these scripts.
pub open spec fn script_sources(bodies: Seq<Seq<char>>) -> Seq<Seq<char>> {
    Seq::new(bodies.len(), |i: int| script_source(bodies[i]))
}

/// What a policy calls each script that stands in a page, its comments left aside.
pub fn hash_inline_scripts(html: &str) -> (r: Vec<String>)
    ensures
        strs(r@) == script_sources(inline_scripts(uncommented(html@, 0), 0)),
{
    proof {
        reveal_strlit("<script");
        reveal_strlit(">");
        reveal_strlit("</script>");
    }
    let code = strip_html_comments(html);
    let t = chars_of(&code);
    let open = chars_of("<script");
    let gt = chars_of(">");
    let close = chars_of("</script>");
    let ghost all = inline_scripts(t@, 0);
    let mut out: Vec<String> = Vec::new();
    let mut from: usize = 0;
    let ghost mut done: Seq<Seq<char>> = seq![];
    assert(strs(out@) =~= script_sources(done));
    assert(done + inline_scripts(t@, 0) =~= all);
    loop
        invariant
            open@ == "<script"@,
            gt@ == ">"@,
            close@ == "</script>"@,
            open@.len() == 7,
            gt@.len() == 1,
            close@.len() == 9,
            t@ == uncommented(html@, 0),
            all == inline_scripts(uncommented(html@, 0), 0),
            from <= t.len(),
            strs(out@) == script_sources(done),
            done + inline_scripts(t@, from as int) == all,
        decreases t@.len() - from,
    {
        let o = match find_chars(&t, &open, from) {
            Some(o) => o,
            None => {
                assert(done + seq![] =~= done);
                return out;
            },
        };
        let head: usize = o + 7;
        let g = match find_chars(&t, &gt, head) {
            Some(g) => g,
            None => {
                assert(done + seq![] =~= done);
                return out;
            },
        };
        let e = match find_chars(&t, &close, g + 1) {
            Some(e) => e,
            None => {
                assert(done + seq![] =~= done);
                return out;
            },
        };
        let attrs = string_of(&t, head, g);
        let body = string_of(&t, g + 1, e);
        let next: usize = e + 9;
        let fetched = has(&attrs, "src=");
        if !fetched && !is_blank(&body) {
            let ghost before = done;
            let ghost named = strs(out@);
            let h = script_hash(&body);
            out.push(h);
            proof {
                done = done.push(body@);
                assert(strs(out@) =~= named.push(h@));
                assert(script_sources(done) =~= script_sources(before).push(script_source(body@)));
                assert(before + (seq![body@] + inline_scripts(t@, next as int)) =~= done
                    + inline_scripts(t@, next as int));
            }
        }
        from = next;
    }
}

/// The sources of scripts, each with a space in front.
pub open spec fn spaced(hashes: Seq<Seq<char>>, n: int) -> Seq<char>
    decreases n,
{
    if n <= 0 {
        seq![]
    } else {
        spaced(hashes, n - 1) + (" "@ + hashes[n - 1])
    }
}

/// The policy of every page, which allows these scripts besides those of the server.
pub fn csp(hashes: &Vec<String>) -> (r: String)
    ensures
        r@
            == "default-src 'self'; img-src 'self' data:; style-src 'self' 'unsafe-inline'; script-src 'self' 'wasm-unsafe-eval'"@
            + spaced(strs(hashes@), hashes@.len() as int)
            + "; connect-src 'self' ws: wss:; object-src 'none'; base-uri 'none'; frame-ancestors 'none'"@,
{
    let mut out = "default-src 'self'; img-src 'self' data:; style-src 'self' 'unsafe-inline'; script-src 'self' 'wasm-unsafe-eval'".to_owned();
    let ghost head = out@;
    let ghost hs = strs(hashes@);
    let mut i: usize = 0;
    assert(head + seq![] =~= head);
    while i < hashes.len()
        invariant
            i <= hashes@.len(),
            hs == strs(hashes@),
            out@ == head + spaced(hs, i as int),
        decreases hashes.len() - i,
    {
        let mut one = " ".to_owned();
        one.push_str(&hashes[i]);
        proof {
            assert(hs[i as int] == hashes@[i as int]@);
            assert(head + spaced(hs, i as int) + one@ =~= head + (spaced(hs, i as int) + one@));
        }
        out.push_str(&one);
        i = i + 1;
    }
    out.push_str(
        "; connect-src 'self' ws: wss:; object-src 'none'; base-uri 'none'; frame-ancestors 'none'",
    );
    out
}

/// The headers that every response carries, whatever it is.
pub fn hardening(policy: String) -> (r: Vec<(&'static str, String)>)
    ensures
        r@.len() == 5,
        r@[0].0@ == "referrer-policy"@ && r@[0].1@ == "no-referrer"@,
        r@[1].0@ == "x-content-type-options"@ && r@[1].1@ == "nosniff"@,
        r@[2].0@ == "x-frame-options"@ && r@[2].1@ == "DENY"@,
        r@[3].0@ == "cache-control"@ && r@[3].1@ == "no-store"@,
        r@[4].0@ == "content-security-policy"@ && r@[4].1 == policy,
{
    let mut v: Vec<(&'static str, String)> = Vec::new();
    v.push(("referrer-policy", "no-referrer".to_owned()));
    v.push(("x-content-type-options", "nosniff".to_owned()));
    v.push(("x-frame-options", "DENY".to_owned()));
    v.push(("cache-control", "no-store".to_owned()));
    v.push(("content-security-policy", policy));
    v
}

/// What follows the last dot of a path, or all of it where it has none.
pub open spec fn extension(path: Seq<char>, n: int) -> Seq<char>
    decreases n,
{
    if n <= 0 {
        path
    } else if path[n - 1] == '.' {
        path.skip(n)
    } else {
        extension(path, n - 1)
    }
}

/// The type of a file by its extension.
pub open spec fn mime_type(ext: Seq<char>) -> Seq<char> {
    if ext == "html"@ {
        "text/html; charset=utf-8"@
    } else if ext == "js"@ {
        "text/javascript; charset=utf-8"@
    } else if ext == "wasm"@ {
        "application/wasm"@
    } else if ext == "css"@ {
        "text/css; charset=utf-8"@
    } else if ext == "json"@ {
        "application/json"@
    } else if ext == "svg"@ {
        "image/svg+xml"@
    } else {
        "application/octet-stream"@
    }
}

/// The type of a file.
pub fn mime(path: &str) -> (r: &'static str)
    ensures
        r@ == mime_type(extension(path@, path@.len() as int)),
{
    let cs = chars_of(path);
    let mut i: usize = cs.len();
    while i > 0 && cs[i - 1] != '.'
        invariant
            i <= cs@.len(),
            cs@ == path@,
            extension(path@, path@.len() as int) == extension(path@, i as int),
        decreases i,
    {
        i = i - 1;
    }
    let ext = string_of(&cs, i, cs.len());
    assert(ext@ =~= path@.skip(i as int));
    assert(path@.skip(0) =~= path@);
    if crate::text::same(&ext, "html") {
        "text/html; charset=utf-8"
    } else if crate::text::same(&ext, "js") {
        "text/javascript; charset=utf-8"
    } else if crate::text::same(&ext, "wasm") {
        "application/wasm"
    } else if crate::text::same(&ext, "css") {
        "text/css; charset=utf-8"
    } else if crate::text::same(&ext, "json") {
        "application/json"
    } else if crate::text::same(&ext, "svg") {
        "image/svg+xml"
    } else {
        "application/octet-stream"
    }
}

/// The addresses that the token may travel to without more: those of this machine, and
/// those of a Tailscale network, which are the first ten bits of 100.64.0.0 and the first
/// forty-eight of fd7a:115c:a1e0.
pub proof fn private_addresses_are_known(a: u8, b: u8, c: u8, d: u8, ip: Ip)
    requires
        ip matches Ip::V4(o) && o@ == seq![a, b, c, d],
    ensures
        loopback(ip) <==> a == 127,
        tailscale(ip) <==> (a * 256 + b) / 64 == (100 * 256 + 64) / 64,
{
}

/// The token that a request brings is what follows `Bearer ` in its header; where the
/// header brings none it is the one of the query.
pub proof fn tokens_are_read(token: Seq<char>, header: Option<Seq<char>>, query: Option<Seq<char>>)
    ensures
        header == Some("Bearer "@ + token) ==> presented(header, query) == Some(token),
        header is None ==> presented(header, query) == query,
        header matches Some(h) ==> !starts_with(h, "Bearer "@) ==> presented(header, query)
            == query,
{
    if header == Some("Bearer "@ + token) {
        let h = "Bearer "@ + token;
        let n = "Bearer "@.len() as int;
        assert(h.subrange(0, n) =~= "Bearer "@);
        assert(h.skip(n) =~= token);
    }
}

/// A comment is taken out of a page, and what stands in front of it and behind it stays.
pub proof fn comments_are_taken_out(a: Seq<char>, comment: Seq<char>, b: Seq<char>)
    requires
        forall|i: int| 0 <= i < a.len() ==> !#[trigger] at(a + "<!--"@, "<!--"@, i),
        forall|i: int|
            0 <= i < 4 + comment.len() ==> !#[trigger] at(
                "<!--"@ + comment + "-->"@,
                "-->"@,
                i,
            ),
    ensures
        uncommented(a + "<!--"@ + comment + "-->"@ + b, 0) == a + uncommented(b, 0),
        !contains(a, "<!--"@) ==> uncommented(a, 0) == a,
{
    reveal_strlit("<!--");
    reveal_strlit("-->");
    let open = "<!--"@;
    let close = "-->"@;
    let html = a + open + comment + close + b;
    let n = a.len() as int;
    lemma_find(html, open, 0);
    assert(html.subrange(n, n + 4) =~= open);
    assert(at(html, open, n));
    let o = find(html, open, 0)->0;
    if o < n {
        assert(html.subrange(o, o + 4) =~= (a + open).subrange(o, o + 4));
        assert(at(a + open, open, o));
    }
    assert(o == n);
    lemma_find(html, close, n);
    let m = n + 4 + comment.len();
    assert(html.subrange(m, m + 3) =~= close);
    assert(at(html, close, m));
    let c = find(html, close, n)->0;
    let middle = open + comment + close;
    if c < m {
        assert(html.subrange(c, c + 3) =~= middle.subrange(c - n, c - n + 3));
        assert(at(middle, close, c - n));
    }
    assert(c == m);
    lemma_uncommented_shift(html, m + 3);
    assert(html.skip(m + 3) =~= b);
    assert(html.subrange(0, n) =~= a);
    if !contains(a, open) {
        lemma_find(a, open, 0);
        if find(a, open, 0) is Some {
            assert(at(a, open, find(a, open, 0)->0));
        }
        assert(a.skip(0) =~= a);
    }
}

proof fn lemma_uncommented_shift(html: Seq<char>, from: int)
    requires
        0 <= from <= html.len(),
    ensures
        uncommented(html, from) == uncommented(html.skip(from), 0),
    decreases html.len() - from,
{
    reveal_strlit("<!--");
    reveal_strlit("-->");
    let open = "<!--"@;
    let close = "-->"@;
    let rest = html.skip(from);
    lemma_find_shift(html, open, from);
    lemma_find(html, open, from);
    lemma_find(rest, open, 0);
    match find(rest, open, 0) {
        Some(o) => {
            lemma_find_shift(html, close, o + from);
            lemma_find_shift(rest, close, o);
            assert(rest.skip(o) =~= html.skip(o + from));
            lemma_find(html, close, o + from);
            lemma_find(rest, close, o);
            assert(rest.subrange(0, o) =~= html.subrange(from, o + from));
            match find(rest, close, o) {
                Some(c) => {
                    lemma_uncommented_shift(html, c + from + 3);
                    lemma_uncommented_shift(rest, c + 3);
                    assert(rest.skip(c + 3) =~= html.skip(c + from + 3));
                },
                None => {},
            }
        },
        None => {
            assert(rest.skip(0) =~= rest);
        },
    }
}

/// The type of a file goes by what follows the last dot of its path.
pub proof fn last_dots_decide(stem: Seq<char>, ext: Seq<char>)
    requires
        !ext.contains('.'),
    ensures
        extension(stem + seq!['.'] + ext, 1int + stem.len() + ext.len()) == ext,
{
    let path = stem + seq!['.'] + ext;
    lemma_extension(path, path.len() as int, stem.len() as int);
    assert(path.skip(1int + stem.len()) =~= ext);
}

proof fn lemma_extension(path: Seq<char>, n: int, dot: int)
    requires
        0 <= dot < n <= path.len(),
        path[dot] == '.',
        forall|i: int| dot < i < n ==> #[trigger] path[i] != '.',
    ensures
        extension(path, n) == path.skip(dot + 1),
    decreases n,
{
    if n - 1 != dot {
        assert(path[n - 1] != '.');
        lemma_extension(path, n - 1, dot);
    }
}

} // verus!
