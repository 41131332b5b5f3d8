//! The SDK's addressing: how names and paths are percent-encoded into
//! URLs, the base URL, the WebSocket URL and every REST route. The HTTP
//! and WebSocket traffic is the application's.

use vstd::prelude::*;

use vstd::string::StringSliceAdditionalSpecFns;

use crate::docs::{segments, split_segments};
use crate::text::{chars_of, dec, extend_chars, extend_str, join, join_chars, lemma_char_vec_deep, matches_at, matches_at_exec, push_dec, string_of};

verus! {

/// Where the daemon listens by default.
pub const DEFAULT_BASE: &'static str = "http://127.0.0.1:7320";

/// Bytes that stand for themselves: letters, digits, `-`, `_`, `.`, `~`.
pub open spec fn unreserved(b: u8) -> bool {
    (0x61 <= b <= 0x7a) || (0x41 <= b <= 0x5a) || (0x30 <= b <= 0x39) || b == 0x2d || b == 0x5f || b == 0x2e || b
        == 0x7e
}

/// An upper-case hexadecimal digit.
pub open spec fn hex_digit(n: u8) -> char {
    if n < 10 {
        (0x30 + n) as char
    } else {
        (0x41 + n - 10) as char
    }
}

pub open spec fn encode_byte(b: u8) -> Seq<char> {
    if unreserved(b) {
        seq![b as char]
    } else {
        seq!['%', hex_digit(b / 16), hex_digit(b % 16)]
    }
}

/// Percent-encoding of a byte string: unreserved bytes stay, every other
/// byte becomes `%XX`.
pub open spec fn url_encode(bytes: Seq<u8>) -> Seq<char>
    decreases bytes.len(),
{
    if bytes.len() == 0 {
        Seq::empty()
    } else {
        url_encode(bytes.drop_last()) + encode_byte(bytes.last())
    }
}

fn hex_char(n: u8) -> (r: char)
    requires
        n < 16,
    ensures
        r == hex_digit(n),
{
    if n < 10 {
        (0x30u8 + n) as char
    } else {
        (0x41u8 + n - 10) as char
    }
}

/// The UTF-8 bytes of `s`, percent-encoded.
pub fn urlencode(s: &str) -> (r: String)
    ensures
        r@ == url_encode(s.spec_bytes()),
{
    let bytes = s.as_bytes();
    let ghost bv = bytes@;
    let mut v: Vec<char> = Vec::new();
    let mut i: usize = 0;
    while i < bytes.len()
        invariant
            i <= bv.len(),
            bv == bytes@,
            v@ == url_encode(bv.subrange(0, i as int)),
        decreases bytes.len() - i,
    {
        assert(bv.subrange(0, i + 1).drop_last() =~= bv.subrange(0, i as int));
        let b = bytes[i];
        let ghost before = v@;
        if (0x61 <= b && b <= 0x7a) || (0x41 <= b && b <= 0x5a) || (0x30 <= b && b <= 0x39) || b == 0x2d || b == 0x5f
            || b == 0x2e || b == 0x7e {
            v.push(b as char);
        } else {
            v.push('%');
            v.push(hex_char(b / 16));
            v.push(hex_char(b % 16));
        }
        assert(v@ =~= before + encode_byte(b));
        i += 1;
    }
    assert(bv.subrange(0, bv.len() as int) =~= bv);
    string_of(&v)
}

/// A relative path with each `/`-separated piece percent-encoded.
pub open spec fn encode_path_spec(path: Seq<char>) -> Seq<char> {
    join(segments(path).map_values(|p: Seq<char>| url_encode(vstd::utf8::encode_utf8(p))), "/"@)
}

pub fn encode_path(path: &str) -> (r: String)
    ensures
        r@ == encode_path_spec(path@),
{
    let segs = split_segments(&chars_of(path));
    let ghost sv = segs.deep_view();
    let mut parts: Vec<Vec<char>> = Vec::new();
    let mut i: usize = 0;
    while i < segs.len()
        invariant
            i <= segs@.len(),
            sv == segs.deep_view(),
            sv.len() == segs@.len(),
            parts.deep_view() == sv.subrange(0, i as int).map_values(|p: Seq<char>| url_encode(vstd::utf8::encode_utf8(p))),
        decreases segs.len() - i,
    {
        proof {
            lemma_char_vec_deep(segs@[i as int]);
        }
        let piece = string_of(&segs[i]);
        let e = urlencode(piece.as_str());
        let c = chars_of(e.as_str());
        proof {
            lemma_char_vec_deep(c);
        }
        let ghost before = parts.deep_view();
        parts.push(c);
        assert(parts.deep_view() =~= before.push(url_encode(vstd::utf8::encode_utf8(sv[i as int]))));
        assert(parts.deep_view() =~= sv.subrange(0, i + 1).map_values(|p: Seq<char>| url_encode(vstd::utf8::encode_utf8(p))));
        i += 1;
    }
    assert(sv.subrange(0, sv.len() as int) =~= sv);
    string_of(&join_chars(&parts, &chars_of("/")))
}

/// `trim_end_matches('/')`: every trailing `/` removed.
pub open spec fn trim_slashes(s: Seq<char>) -> Seq<char>
    decreases s.len(),
{
    if s.len() > 0 && s.last() == '/' {
        trim_slashes(s.drop_last())
    } else {
        s
    }
}

/// The base URL as the SDK keeps it.
pub fn normalize_base(base: &str) -> (r: String)
    ensures
        r@ == trim_slashes(base@),
{
    let c = chars_of(base);
    let mut n: usize = c.len();
    assert(c@.subrange(0, n as int) =~= c@);
    while n > 0 && c[n - 1] == '/'
        invariant
            n <= c@.len(),
            trim_slashes(base@) == trim_slashes(c@.subrange(0, n as int)),
            c@ == base@,
        decreases n,
    {
        assert(c@.subrange(0, n as int).drop_last() =~= c@.subrange(0, n - 1));
        n -= 1;
    }
    assert(c@.subrange(0, 0) =~= Seq::<char>::empty());
    string_of(&crate::text::slice_chars(&c, 0, n))
}

/// Index of the first occurrence of `n` in `h`, or `h.len()`.
pub open spec fn first_match(h: Seq<char>, n: Seq<char>, from: int) -> int
    decreases h.len() - from,
{
    if from >= h.len() {
        h.len() as int
    } else if matches_at(h, n, from) {
        from
    } else {
        first_match(h, n, from + 1)
    }
}

/// `replacen(from, to, 1)`: the first occurrence replaced.
pub open spec fn replace_first(h: Seq<char>, from: Seq<char>, to: Seq<char>) -> Seq<char> {
    let i = first_match(h, from, 0);
    if i < h.len() {
        h.subrange(0, i) + to + h.subrange(i + from.len(), h.len() as int)
    } else {
        h
    }
}

/// The event stream's URL: the first `http` of the base becomes `ws`
/// (`https` → `wss`), then `/ws`.
pub fn ws_url(base: &str) -> (r: String)
    ensures
        r@ == replace_first(base@, "http"@, "ws"@) + "/ws"@,
{
    proof {
        reveal_strlit("http");
    }
    let h = chars_of(base);
    let pat = chars_of("http");
    let mut i: usize = 0;
    while i < h.len() && !matches_at_exec(&h, &pat, i)
        invariant
            i <= h@.len(),
            h@ == base@,
            pat@ == "http"@,
            first_match(h@, pat@, 0) == first_match(h@, pat@, i as int),
        decreases h.len() - i,
    {
        i += 1;
    }
    let mut v: Vec<char> = Vec::new();
    if i < h.len() {
        assert(matches_at(h@, pat@, i as int));
        extend_chars(&mut v, &crate::text::slice_chars(&h, 0, i));
        extend_str(&mut v, "ws");
        extend_chars(&mut v, &crate::text::slice_chars(&h, i + 4, h.len()));
    } else {
        extend_chars(&mut v, &h);
    }
    extend_str(&mut v, "/ws");
    assert(v@ =~= replace_first(base@, "http"@, "ws"@) + "/ws"@);
    string_of(&v)
}

fn concat2(a: &str, b: &str) -> (r: String)
    ensures
        r@ == a@ + b@,
{
    let mut v: Vec<char> = Vec::new();
    extend_str(&mut v, a);
    extend_str(&mut v, b);
    string_of(&v)
}

/// A route on the daemon.
pub fn url(base: &str, route: &str) -> (r: String)
    ensures
        r@ == base@ + route@,
{
    concat2(base, route)
}

/// `/api/search?q=<query>&limit=<n>`.
pub fn search_route(query: &str, limit: usize) -> (r: String)
    ensures
        r@ == "/api/search?q="@ + url_encode(query.spec_bytes()) + "&limit="@ + dec(limit as nat),
{
    let mut v: Vec<char> = Vec::new();
    extend_str(&mut v, "/api/search?q=");
    let q = urlencode(query);
    extend_str(&mut v, q.as_str());
    extend_str(&mut v, "&limit=");
    push_dec(&mut v, limit as u64);
    string_of(&v)
}

/// `/api/cortex?q=<query>`.
pub fn recall_route(query: &str) -> (r: String)
    ensures
        r@ == "/api/cortex?q="@ + url_encode(query.spec_bytes()),
{
    let q = urlencode(query);
    concat2("/api/cortex?q=", q.as_str())
}

/// `/api/docs/<project>`.
pub fn docs_route(project: &str) -> (r: String)
    ensures
        r@ == "/api/docs/"@ + url_encode(project.spec_bytes()),
{
    let p = urlencode(project);
    concat2("/api/docs/", p.as_str())
}

/// `/api/doc/<project>/<path>`, the path encoded piece by piece.
pub fn doc_route(project: &str, path: &str) -> (r: String)
    ensures
        r@ == "/api/doc/"@ + url_encode(project.spec_bytes()) + "/"@ + encode_path_spec(path@),
{
    let mut v: Vec<char> = Vec::new();
    extend_str(&mut v, "/api/doc/");
    let p = urlencode(project);
    extend_str(&mut v, p.as_str());
    extend_str(&mut v, "/");
    let e = encode_path(path);
    extend_str(&mut v, e.as_str());
    string_of(&v)
}

/// A character that may stand in a URL unescaped here: ASCII letters,
/// digits, `-`, `_`, `.`, `~`, and the escape mark `%`.
pub open spec fn url_safe(c: char) -> bool {
    ('a' <= c <= 'z') || ('A' <= c <= 'Z') || ('0' <= c <= '9') || c == '-' || c == '_' || c == '.' || c == '~'
        || c == '%'
}

/// Percent-encoding leaves nothing that could end a path piece, start a
/// query or separate parameters: every character it produces is URL-safe
/// (so no `/`, `?`, `&`, `#` or space), whatever the input.
pub proof fn law_urlencode_is_safe(bytes: Seq<u8>)
    ensures
        forall|i: int| 0 <= i < url_encode(bytes).len() ==> url_safe(#[trigger] url_encode(bytes)[i]),
    decreases bytes.len(),
{
    if bytes.len() > 0 {
        let d = bytes.drop_last();
        law_urlencode_is_safe(d);
        let b = bytes.last();
        let e = encode_byte(b);
        assert forall|i: int| 0 <= i < e.len() implies url_safe(#[trigger] e[i]) by {
            if unreserved(b) {
                assert(e[i] == b as char);
            } else {
                assert(b / 16 < 16 && b % 16 < 16) by (nonlinear_arith);
            }
        }
        let r = url_encode(bytes);
        assert(r =~= url_encode(d) + e);
        assert forall|i: int| 0 <= i < r.len() implies url_safe(#[trigger] r[i]) by {
            if i < url_encode(d).len() {
                assert(r[i] == url_encode(d)[i]);
            } else {
                assert(r[i] == e[i - url_encode(d).len()]);
            }
        }
    }
}

proof fn lemma_segments_concat(a: Seq<char>, b: Seq<char>)
    ensures
        segments(a + seq!['/'] + b) == segments(a) + segments(b),
    decreases a.len(),
{
    let s = a + seq!['/'] + b;
    crate::text::lemma_find_char(a, '/');
    let i = crate::text::find_char(a, '/');
    assert forall|j: int| 0 <= j < i implies s[j] != '/' by {
        assert(s[j] == a[j]);
    }
    assert(s[i] == '/');
    crate::docs::lemma_find_at(s, '/', i);
    if i == a.len() {
        assert(s.subrange(0, i) =~= a);
        assert(s.subrange(i + 1, s.len() as int) =~= b);
        assert(segments(a) == seq![a]);
    } else {
        let rest = a.subrange(i + 1, a.len() as int);
        assert(s.subrange(0, i) =~= a.subrange(0, i));
        assert(s.subrange(i + 1, s.len() as int) =~= rest + seq!['/'] + b);
        lemma_segments_concat(rest, b);
        assert(seq![a.subrange(0, i)] + (segments(rest) + segments(b)) =~= (seq![a.subrange(0, i)] + segments(
            rest,
        )) + segments(b));
    }
}

proof fn lemma_segments_of_join(parts: Seq<Seq<char>>)
    requires
        parts.len() >= 1,
        forall|i: int, j: int| 0 <= i < parts.len() && 0 <= j < parts[i].len() ==> #[trigger] parts[i][j] != '/',
    ensures
        segments(join(parts, "/"@)) == parts,
    decreases parts.len(),
{
    reveal_strlit("/");
    let last = parts.last();
    assert forall|j: int| 0 <= j < last.len() implies last[j] != '/' by {
        assert(parts[parts.len() - 1][j] != '/');
    }
    crate::docs::lemma_find_at(last, '/', last.len() as int);
    assert(last.subrange(0, last.len() as int) =~= last);
    assert(segments(last) == seq![last]);
    if parts.len() == 1 {
        assert(parts =~= seq![last]);
    } else {
        let d = parts.drop_last();
        assert forall|i: int, j: int| 0 <= i < d.len() && 0 <= j < d[i].len() implies #[trigger] d[i][j] != '/' by {
            assert(d[i] == parts[i]);
        }
        lemma_segments_of_join(d);
        assert("/"@ =~= seq!['/']);
        lemma_segments_concat(join(d, "/"@), last);
        assert(d + seq![last] =~= parts);
    }
}

/// Encoding a path keeps its pieces: splitting the encoded path at `/`
/// gives back each piece of the original, percent-encoded.
pub proof fn law_encoded_path_keeps_pieces(path: Seq<char>)
    ensures
        segments(encode_path_spec(path)) == segments(path).map_values(
            |p: Seq<char>| url_encode(vstd::utf8::encode_utf8(p)),
        ),
{
    crate::docs::lemma_segments_nonempty(path);
    let parts = segments(path).map_values(|p: Seq<char>| url_encode(vstd::utf8::encode_utf8(p)));
    assert forall|i: int, j: int| 0 <= i < parts.len() && 0 <= j < parts[i].len() implies #[trigger] parts[i][j]
        != '/' by {
        law_urlencode_is_safe(vstd::utf8::encode_utf8(segments(path)[i]));
        assert(url_safe(parts[i][j]));
    }
    lemma_segments_of_join(parts);
}

} // verus!
