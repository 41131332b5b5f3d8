//! Notes/docs: which files count as docs, how a client-supplied relative
//! path is checked (relative, no `..`, extension allow-listed, no escape from
//! the project), the README-first listing, and what a write with its local
//! auto-commit reports. The file system and `git` themselves are driven by
//! the application.

use vstd::prelude::*;

use crate::config::path_join;
use crate::protocol::{opt_str_view, strings_view, DocEntry, DocWriteResult};
use crate::scan::{is_skip_dir, skip_dir, take_first};
use crate::text::{
    chars_of, contains_seq, contains_chars, extend_chars, extend_str, find_char, join,
    lemma_char_vec_deep, lemma_find_char, lowercase, slice_chars, str_eq, string_of, to_lower, trim,
    trim_chars, Trim,
};

verus! {

// ---------------------------------------------------------------------
// Extensions
// ---------------------------------------------------------------------

pub open spec fn doc_exts() -> Seq<Seq<char>> {
    seq!["md"@, "markdown"@, "txt"@]
}

/// What `/raw` may serve — images referenced by docs, nothing executable.
pub open spec fn asset_exts() -> Seq<Seq<char>> {
    seq!["png"@, "jpg"@, "jpeg"@, "gif"@, "svg"@, "webp"@, "ico"@, "bmp"@, "avif"@]
}

pub fn doc_extensions() -> (r: Vec<String>)
    ensures
        strings_view(r@) == doc_exts(),
{
    let mut v: Vec<String> = Vec::new();
    v.push(String::from_str("md"));
    v.push(String::from_str("markdown"));
    v.push(String::from_str("txt"));
    assert(strings_view(v@) =~= doc_exts());
    v
}

pub fn asset_extensions() -> (r: Vec<String>)
    ensures
        strings_view(r@) == asset_exts(),
{
    let mut v: Vec<String> = Vec::new();
    v.push(String::from_str("png"));
    v.push(String::from_str("jpg"));
    v.push(String::from_str("jpeg"));
    v.push(String::from_str("gif"));
    v.push(String::from_str("svg"));
    v.push(String::from_str("webp"));
    v.push(String::from_str("ico"));
    v.push(String::from_str("bmp"));
    v.push(String::from_str("avif"));
    assert(strings_view(v@) =~= asset_exts());
    v
}

// ---------------------------------------------------------------------
// Path pieces
// ---------------------------------------------------------------------

/// The pieces of a path between `/` separators (empty pieces included).
pub open spec fn segments(p: Seq<char>) -> Seq<Seq<char>>
    decreases p.len(),
{
    let i = find_char(p, '/');
    proof {
        lemma_find_char(p, '/');
    }
    if i == p.len() {
        seq![p]
    } else {
        seq![p.subrange(0, i)] + segments(p.subrange(i + 1, p.len() as int))
    }
}

/// `Path::file_name`: the last piece that is a name (empty and `.` pieces
/// are not components; a final `..` has no file name).
pub open spec fn last_name(segs: Seq<Seq<char>>) -> Option<Seq<char>>
    decreases segs.len(),
{
    if segs.len() == 0 {
        None
    } else {
        let l = segs.last();
        if l.len() == 0 || l == "."@ {
            last_name(segs.drop_last())
        } else if l == ".."@ {
            None
        } else {
            Some(l)
        }
    }
}

/// Index of the last `c`, or -1.
pub open spec fn rfind_char(s: Seq<char>, c: char) -> int
    decreases s.len(),
{
    if s.len() == 0 {
        -1
    } else if s.last() == c {
        s.len() - 1
    } else {
        rfind_char(s.drop_last(), c)
    }
}

/// `Path::extension` of a file name: after the last `.`, unless that dot
/// starts the name.
pub open spec fn extension_of(name: Seq<char>) -> Option<Seq<char>> {
    let k = rfind_char(name, '.');
    if k <= 0 {
        None
    } else {
        Some(name.subrange(k + 1, name.len() as int))
    }
}

/// A file name's extension is what follows its last dot: it holds no dot,
/// and the name is a non-empty stem, a dot and the extension. A name whose
/// only dot starts it, or with no dot, has none.
pub proof fn law_extension_after_last_dot(name: Seq<char>)
    ensures
        match extension_of(name) {
            Some(e) => {
                &&& forall|j: int| 0 <= j < e.len() ==> e[j] != '.'
                &&& exists|stem: Seq<char>| stem.len() > 0 && name == stem + "."@ + e
            },
            None => forall|k: int| 0 < k < name.len() ==> name[k] != '.',
        },
        forall|k: int|
            0 < k < name.len() && name[k] == '.' && (forall|j: int| k < j < name.len() ==> name[j] != '.')
                ==> extension_of(name) == Some(name.subrange(k + 1, name.len() as int)),
{
    lemma_rfind(name, '.');
    let k = rfind_char(name, '.');
    reveal_strlit(".");
    if k > 0 {
        let e = name.subrange(k + 1, name.len() as int);
        let stem = name.subrange(0, k);
        assert(name =~= stem + "."@ + e);
        assert forall|j: int| 0 <= j < e.len() implies e[j] != '.' by {
            assert(e[j] == name[k + 1 + j]);
        }
    }
    assert forall|q: int|
        0 < q < name.len() && name[q] == '.' && (forall|j: int| q < j < name.len() ==> name[j] != '.') implies
        extension_of(name) == Some(name.subrange(q + 1, name.len() as int)) by {
        lemma_rfind_at(name, '.', q);
    }
}

/// The lowercased extension of the path's file name is one of `allowed`.
pub open spec fn has_ext_spec(path: Seq<char>, allowed: Seq<Seq<char>>) -> bool {
    match last_name(segments(path)) {
        Some(n) => match extension_of(n) {
            Some(e) => allowed.contains(lowercase(e)),
            None => false,
        },
        None => false,
    }
}

pub proof fn lemma_rfind(s: Seq<char>, c: char)
    ensures
        -1 <= rfind_char(s, c) < s.len(),
        rfind_char(s, c) >= 0 ==> s[rfind_char(s, c)] == c,
        forall|j: int| rfind_char(s, c) < j < s.len() ==> s[j] != c,
    decreases s.len(),
{
    if s.len() > 0 && s.last() != c {
        lemma_rfind(s.drop_last(), c);
        assert forall|j: int| rfind_char(s, c) < j < s.len() implies s[j] != c by {
            if j < s.len() - 1 {
                assert(s.drop_last()[j] == s[j]);
            }
        }
    }
}

proof fn lemma_rfind_at(s: Seq<char>, c: char, k: int)
    requires
        -1 <= k < s.len(),
        k >= 0 ==> s[k] == c,
        forall|j: int| k < j < s.len() ==> s[j] != c,
    ensures
        rfind_char(s, c) == k,
    decreases s.len(),
{
    if s.len() > 0 && k < s.len() - 1 {
        lemma_rfind_at(s.drop_last(), c, k);
    }
}

/// `str::split('/')`, keeping empty pieces.
pub fn split_segments(p: &[char]) -> (r: Vec<Vec<char>>)
    ensures
        r.deep_view() == segments(p@),
{
    let n = p.len();
    let mut r: Vec<Vec<char>> = Vec::new();
    let mut start: usize = 0;
    let mut k: usize = 0;
    assert(p@.subrange(0, n as int) =~= p@);
    while k < n
        invariant
            n == p@.len(),
            start <= k <= n,
            forall|j: int| start <= j < k ==> p@[j] != '/',
            segments(p@) == r.deep_view() + segments(p@.subrange(start as int, n as int)),
        decreases n - k,
    {
        if p[k] == '/' {
            let ghost rest = p@.subrange(start as int, n as int);
            proof {
                assert forall|j: int| 0 <= j < k - start implies rest[j] != '/' by {
                    assert(rest[j] == p@[start + j]);
                }
                assert(rest[k - start] == p@[k as int]);
                crate::text::lemma_find_char(rest, '/');
                lemma_find_at(rest, '/', k - start);
                assert(rest.subrange(0, k - start) =~= p@.subrange(start as int, k as int));
                assert(rest.subrange(k - start + 1, rest.len() as int) =~= p@.subrange(
                    k + 1,
                    n as int,
                ));
            }
            let seg = slice_chars(p, start, k);
            let ghost before = r.deep_view();
            proof {
                lemma_char_vec_deep(seg);
            }
            r.push(seg);
            proof {
                assert(r.deep_view() =~= before.push(p@.subrange(start as int, k as int)));
                assert(before + (seq![p@.subrange(start as int, k as int)] + segments(
                    p@.subrange(k + 1, n as int),
                )) =~= r.deep_view() + segments(p@.subrange(k + 1, n as int)));
            }
            start = k + 1;
        }
        k += 1;
    }
    let ghost rest = p@.subrange(start as int, n as int);
    proof {
        assert forall|j: int| 0 <= j < rest.len() implies rest[j] != '/' by {
            assert(rest[j] == p@[start + j]);
        }
        lemma_find_at(rest, '/', rest.len() as int);
    }
    let seg = slice_chars(p, start, n);
    let ghost before = r.deep_view();
    proof {
        lemma_char_vec_deep(seg);
    }
    r.push(seg);
    proof {
        assert(r.deep_view() =~= before + seq![rest]);
    }
    r
}

pub proof fn lemma_find_at(s: Seq<char>, c: char, k: int)
    requires
        0 <= k <= s.len(),
        forall|j: int| 0 <= j < k ==> s[j] != c,
        k == s.len() || s[k] == c,
    ensures
        find_char(s, c) == k,
    decreases k,
{
    if k > 0 {
        let d = s.drop_first();
        assert forall|j: int| 0 <= j < k - 1 implies d[j] != c by {
            assert(d[j] == s[j + 1]);
        }
        if k < s.len() {
            assert(d[k - 1] == s[k]);
        }
        lemma_find_at(d, c, k - 1);
    }
}

/// The file name of a path, if it has one.
pub fn file_name(path: &str) -> (r: Option<Vec<char>>)
    ensures
        match r {
            Some(v) => last_name(segments(path@)) == Some(v@),
            None => last_name(segments(path@)) is None,
        },
{
    let segs = split_segments(&chars_of(path));
    let dot = chars_of(".");
    let dotdot = chars_of("..");
    let mut i: usize = segs.len();
    assert(segs.deep_view().subrange(0, i as int) =~= segs.deep_view());
    while i > 0
        invariant
            i <= segs@.len(),
            segs.deep_view() == segments(path@),
            dot@ == "."@,
            dotdot@ == ".."@,
            last_name(segments(path@)) == last_name(segs.deep_view().subrange(0, i as int)),
        decreases i,
    {
        let ghost pre = segs.deep_view().subrange(0, i as int);
        proof {
            lemma_char_vec_deep(segs@[i - 1]);
        }
        assert(pre.last() == segs@[i - 1]@);
        assert(pre.drop_last() =~= segs.deep_view().subrange(0, i - 1));
        let l = &segs[i - 1];
        if l.len() == 0 || crate::text::chars_eq(l, &dot) {
            i -= 1;
        } else if crate::text::chars_eq(l, &dotdot) {
            return None;
        } else {
            return Some(slice_chars(l, 0, l.len()));
        }
    }
    None
}

/// The extension of a file name, if it has one.
pub fn extension(name: &[char]) -> (r: Option<Vec<char>>)
    ensures
        match r {
            Some(v) => extension_of(name@) == Some(v@),
            None => extension_of(name@) is None,
        },
{
    let mut k: usize = name.len();
    while k > 0 && name[k - 1] != '.'
        invariant
            k <= name@.len(),
            forall|j: int| k <= j < name@.len() ==> name@[j] != '.',
        decreases k,
    {
        k -= 1;
    }
    proof {
        lemma_rfind_at(name@, '.', k - 1);
    }
    if k <= 1 {
        None
    } else {
        Some(slice_chars(name, k, name.len()))
    }
}

/// Whether `s` equals one of `allowed`.
pub fn in_list(s: &str, allowed: &Vec<String>) -> (r: bool)
    ensures
        r == strings_view(allowed@).contains(s@),
{
    let mut i: usize = 0;
    while i < allowed.len()
        invariant
            i <= allowed@.len(),
            forall|k: int| 0 <= k < i ==> allowed@[k]@ != s@,
        decreases allowed.len() - i,
    {
        if str_eq(allowed[i].as_str(), s) {
            assert(strings_view(allowed@)[i as int] == s@);
            return true;
        }
        i += 1;
    }
    proof {
        if strings_view(allowed@).contains(s@) {
            let k = choose|k: int|
                0 <= k < strings_view(allowed@).len() && strings_view(allowed@)[k] == s@;
            assert(allowed@[k]@ == s@);
        }
    }
    false
}

/// The path's file name has one of the allowed extensions (case-insensitively).
pub fn has_ext(path: &str, allowed: &Vec<String>) -> (r: bool)
    ensures
        r == has_ext_spec(path@, strings_view(allowed@)),
{
    match file_name(path) {
        Some(n) => match extension(&n) {
            Some(e) => {
                let es = string_of(&e);
                let lower = to_lower(es.as_str());
                in_list(lower.as_str(), allowed)
            },
            None => false,
        },
        None => false,
    }
}

/// Markdown or plain-text files.
pub fn is_doc(path: &str) -> (r: bool)
    ensures
        r == has_ext_spec(path@, doc_exts()),
{
    has_ext(path, &doc_extensions())
}

// ---------------------------------------------------------------------
// Walking a project for docs (the application reads the directories)
// ---------------------------------------------------------------------

/// Deepest directory level the doc walk enters.
pub const MAX_DEPTH: u32 = 8;
/// At most this many docs per project.
pub const MAX_DOCS: usize = 500;

/// The walk stops below depth 8 and once 500 docs are in hand.
pub fn walk_continues(depth: u32, found: usize) -> (r: bool)
    ensures
        r == (depth <= 8 && found < 500),
{
    !(depth > MAX_DEPTH || found >= MAX_DOCS)
}

/// Directories the doc walk descends into: not hidden, not build output.
pub fn descends_into(name: &str) -> (r: bool)
    ensures
        r == !((name@.len() > 0 && name@[0] == '.') || is_skip_dir(name@)),
{
    let c = chars_of(name);
    !((c.len() > 0 && c[0] == '.') || skip_dir(name))
}

/// Files the doc walk lists: docs that are not hidden.
pub fn lists_file(name: &str) -> (r: bool)
    ensures
        r == (has_ext_spec(name@, doc_exts()) && !(name@.len() > 0 && name@[0] == '.')),
{
    let c = chars_of(name);
    is_doc(name) && !(c.len() > 0 && c[0] == '.')
}

// ---------------------------------------------------------------------
// Listing order: README.md first, then by path
// ---------------------------------------------------------------------

pub struct DocEntryView {
    pub path: Seq<char>,
    pub size: u64,
    pub modified_unix: i64,
}

impl View for DocEntry {
    type V = DocEntryView;

    open spec fn view(&self) -> DocEntryView {
        DocEntryView { path: self.path@, size: self.size, modified_unix: self.modified_unix }
    }
}

pub open spec fn docs_view(v: Seq<DocEntry>) -> Seq<DocEntryView> {
    v.map_values(|d: DocEntry| d@)
}

/// `String` order: lexicographic by character (the same as by UTF-8 byte).
pub open spec fn seq_lt(a: Seq<char>, b: Seq<char>) -> bool
    decreases a.len(),
{
    if a.len() == 0 {
        b.len() > 0
    } else if b.len() == 0 {
        false
    } else if a[0] != b[0] {
        (a[0] as u32) < (b[0] as u32)
    } else {
        seq_lt(a.drop_first(), b.drop_first())
    }
}

pub open spec fn is_readme(p: Seq<char>) -> bool {
    p == "README.md"@
}

/// The key `(path != "README.md", path)`: README first, then by path.
pub open spec fn doc_lt(a: DocEntryView, b: DocEntryView) -> bool {
    ||| (is_readme(a.path) && !is_readme(b.path))
    ||| (is_readme(a.path) == is_readme(b.path) && seq_lt(a.path, b.path))
}

pub open spec fn insert_doc(sorted: Seq<DocEntryView>, x: DocEntryView) -> Seq<DocEntryView>
    decreases sorted.len(),
{
    if sorted.len() == 0 {
        seq![x]
    } else if doc_lt(x, sorted[0]) {
        seq![x] + sorted
    } else {
        seq![sorted[0]] + insert_doc(sorted.drop_first(), x)
    }
}

/// Stable sort by the listing key.
pub open spec fn sort_docs(s: Seq<DocEntryView>) -> Seq<DocEntryView>
    decreases s.len(),
{
    if s.len() == 0 {
        Seq::empty()
    } else {
        insert_doc(sort_docs(s.drop_last()), s.last())
    }
}

/// The listing: README first, then by path, at most 500.
pub open spec fn list_docs_spec(walked: Seq<DocEntryView>) -> Seq<DocEntryView> {
    take_first(sort_docs(walked), 500)
}

proof fn lemma_insert_doc_at(sorted: Seq<DocEntryView>, x: DocEntryView, p: int)
    requires
        0 <= p <= sorted.len(),
        forall|k: int| 0 <= k < p ==> !doc_lt(x, sorted[k]),
        p == sorted.len() || doc_lt(x, sorted[p]),
    ensures
        insert_doc(sorted, x) == sorted.insert(p, x),
    decreases p,
{
    if sorted.len() == 0 {
        assert(sorted.insert(p, x) =~= seq![x]);
    } else if p == 0 {
        assert(sorted.insert(0, x) =~= seq![x] + sorted);
    } else {
        let d = sorted.drop_first();
        assert forall|k: int| 0 <= k < p - 1 implies !doc_lt(x, d[k]) by {
            assert(d[k] == sorted[k + 1]);
        }
        if p - 1 < d.len() {
            assert(d[p - 1] == sorted[p]);
        }
        lemma_insert_doc_at(d, x, p - 1);
        assert(seq![sorted[0]] + d.insert(p - 1, x) =~= sorted.insert(p, x));
    }
}

/// `a < b` on strings.
pub fn str_lt(a: &[char], b: &[char]) -> (r: bool)
    ensures
        r == seq_lt(a@, b@),
{
    let mut i: usize = 0;
    assert(a@.subrange(0, a@.len() as int) =~= a@);
    assert(b@.subrange(0, b@.len() as int) =~= b@);
    while i < a.len() && i < b.len() && a[i] == b[i]
        invariant
            i <= a@.len(),
            i <= b@.len(),
            seq_lt(a@, b@) == seq_lt(a@.subrange(i as int, a@.len() as int), b@.subrange(
                i as int,
                b@.len() as int,
            )),
        decreases a.len() - i,
    {
        let ghost sa = a@.subrange(i as int, a@.len() as int);
        let ghost sb = b@.subrange(i as int, b@.len() as int);
        assert(sa.drop_first() =~= a@.subrange(i + 1, a@.len() as int));
        assert(sb.drop_first() =~= b@.subrange(i + 1, b@.len() as int));
        i += 1;
    }
    if i == a.len() {
        i < b.len()
    } else if i == b.len() {
        false
    } else {
        (a[i] as u32) < (b[i] as u32)
    }
}

fn doc_before(x: &DocEntry, y: &DocEntry, readme: &Vec<char>) -> (r: bool)
    requires
        readme@ == "README.md"@,
    ensures
        r == doc_lt(x@, y@),
{
    let xp = chars_of(x.path.as_str());
    let yp = chars_of(y.path.as_str());
    let xr = crate::text::chars_eq(&xp, readme);
    let yr = crate::text::chars_eq(&yp, readme);
    (xr && !yr) || (xr == yr && str_lt(&xp, &yp))
}

/// All doc files under a project (as walked), README first, then by path,
/// at most 500.
pub fn list_docs(walked: Vec<DocEntry>) -> (r: Vec<DocEntry>)
    ensures
        docs_view(r@) == list_docs_spec(docs_view(walked@)),
{
    let ghost input = docs_view(walked@);
    let readme = chars_of("README.md");
    let mut src = walked;
    let mut out: Vec<DocEntry> = Vec::new();
    let n = src.len();
    let mut k: usize = 0;
    while k < n
        invariant
            src@.len() == n - k,
            k <= n,
            input.len() == n,
            readme@ == "README.md"@,
            forall|q: int| 0 <= q < n - k ==> #[trigger] src@[q]@ == input[k + q],
            docs_view(out@) == sort_docs(input.subrange(0, k as int)),
        decreases n - k,
    {
        let x = src.remove(0);
        assert(x@ == input[k as int]);
        let mut p: usize = 0;
        while p < out.len() && !doc_before(&x, &out[p], &readme)
            invariant
                p <= out@.len(),
                readme@ == "README.md"@,
                forall|q: int| 0 <= q < p ==> !doc_lt(x@, out@[q]@),
            decreases out.len() - p,
        {
            p += 1;
        }
        let ghost before = docs_view(out@);
        proof {
            assert forall|q: int| 0 <= q < p implies !doc_lt(x@, before[q]) by {
                assert(before[q] == out@[q]@);
            }
            if p < before.len() {
                assert(before[p as int] == out@[p as int]@);
            }
            lemma_insert_doc_at(before, x@, p as int);
        }
        out.insert(p, x);
        proof {
            assert(docs_view(out@) =~= before.insert(p as int, x@));
            let pre = input.subrange(0, k as int);
            let nxt = input.subrange(0, k + 1);
            assert(nxt.drop_last() =~= pre);
            assert(nxt.last() == x@);
            assert forall|q: int| 0 <= q < n - (k + 1) implies #[trigger] src@[q]@ == input[(k + 1)
                + q] by {
                assert(src@[q]@ == input[k + (q + 1)]);
            }
        }
        k += 1;
    }
    assert(input.subrange(0, n as int) =~= input);
    let ghost sorted = docs_view(out@);
    if out.len() > MAX_DOCS {
        out.truncate(MAX_DOCS);
        assert(docs_view(out@) =~= sorted.subrange(0, 500));
    }
    out
}

proof fn lemma_readme_first_insert(s: Seq<DocEntryView>, x: DocEntryView)
    requires
        (exists|i: int| 0 <= i < s.len() && is_readme(#[trigger] s[i].path)) ==> is_readme(s[0].path),
    ensures
        (exists|i: int| 0 <= i < insert_doc(s, x).len() && is_readme(#[trigger] insert_doc(s, x)[i].path))
            ==> is_readme(insert_doc(s, x)[0].path),
    decreases s.len(),
{
    let r = insert_doc(s, x);
    if s.len() == 0 {
    } else if doc_lt(x, s[0]) {
        assert(r[0] == x);
        if exists|i: int| 0 <= i < r.len() && is_readme(#[trigger] r[i].path) {
            let i = choose|i: int| 0 <= i < r.len() && is_readme(#[trigger] r[i].path);
            if i > 0 {
                assert(r[i] == s[i - 1]);
                assert(is_readme(s[0].path));
            }
        }
    } else {
        assert(r[0] == s[0]);
        let t = insert_doc(s.drop_first(), x);
        if exists|i: int| 0 <= i < r.len() && is_readme(#[trigger] r[i].path) {
            let i = choose|i: int| 0 <= i < r.len() && is_readme(#[trigger] r[i].path);
            if i > 0 {
                assert(r[i] == t[i - 1]);
                lemma_insert_doc_members(s.drop_first(), x, i - 1);
                if is_readme(x.path) && t[i - 1] == x {
                    assert(!doc_lt(x, s[0]));
                } else {
                    let j = choose|j: int| 0 <= j < s.drop_first().len() && s.drop_first()[j] == t[i - 1];
                    assert(s[j + 1] == t[i - 1]);
                }
            }
        }
    }
}

proof fn lemma_insert_doc_members(s: Seq<DocEntryView>, x: DocEntryView, i: int)
    requires
        0 <= i < insert_doc(s, x).len(),
    ensures
        insert_doc(s, x)[i] == x || exists|j: int| 0 <= j < s.len() && s[j] == insert_doc(s, x)[i],
    decreases s.len(),
{
    let r = insert_doc(s, x);
    if s.len() == 0 {
    } else if doc_lt(x, s[0]) {
        if i > 0 {
            assert(r[i] == s[i - 1]);
        }
    } else {
        if i > 0 {
            lemma_insert_doc_members(s.drop_first(), x, i - 1);
            let t = insert_doc(s.drop_first(), x);
            assert(r[i] == t[i - 1]);
            if t[i - 1] != x {
                let j = choose|j: int| 0 <= j < s.drop_first().len() && s.drop_first()[j] == t[i - 1];
                assert(s[j + 1] == r[i]);
            }
        } else {
            assert(s[0] == r[0]);
        }
    }
}

proof fn lemma_sort_docs_len(s: Seq<DocEntryView>)
    ensures
        sort_docs(s).len() == s.len(),
    decreases s.len(),
{
    if s.len() > 0 {
        lemma_sort_docs_len(s.drop_last());
        lemma_insert_doc_len(sort_docs(s.drop_last()), s.last());
    }
}

proof fn lemma_insert_doc_len(s: Seq<DocEntryView>, x: DocEntryView)
    ensures
        insert_doc(s, x).len() == s.len() + 1,
    decreases s.len(),
{
    if s.len() > 0 && !doc_lt(x, s[0]) {
        lemma_insert_doc_len(s.drop_first(), x);
    }
}

proof fn lemma_sort_docs_readme(s: Seq<DocEntryView>)
    ensures
        (exists|i: int| 0 <= i < sort_docs(s).len() && is_readme(#[trigger] sort_docs(s)[i].path))
            ==> is_readme(sort_docs(s)[0].path),
    decreases s.len(),
{
    if s.len() > 0 {
        lemma_sort_docs_readme(s.drop_last());
        lemma_readme_first_insert(sort_docs(s.drop_last()), s.last());
    }
}

proof fn lemma_sort_docs_has(s: Seq<DocEntryView>, i: int)
    requires
        0 <= i < s.len(),
    ensures
        exists|j: int| 0 <= j < sort_docs(s).len() && sort_docs(s)[j] == s[i],
    decreases s.len(),
{
    let t = sort_docs(s.drop_last());
    lemma_insert_doc_len(t, s.last());
    assert(sort_docs(s) == insert_doc(t, s.last()));
    if i == s.len() - 1 {
        lemma_insert_doc_has_x(t, s.last());
    } else {
        lemma_sort_docs_has(s.drop_last(), i);
        let j = choose|j: int| 0 <= j < t.len() && t[j] == s.drop_last()[i];
        assert(s.drop_last()[i] == s[i]);
        lemma_insert_doc_keeps(t, s.last(), j);
        let k = choose|k: int| 0 <= k < insert_doc(t, s.last()).len() && insert_doc(t, s.last())[k] == t[j];
        assert(sort_docs(s)[k] == s[i]);
    }
}

proof fn lemma_insert_doc_has_x(s: Seq<DocEntryView>, x: DocEntryView)
    ensures
        exists|j: int| 0 <= j < insert_doc(s, x).len() && insert_doc(s, x)[j] == x,
    decreases s.len(),
{
    lemma_insert_doc_len(s, x);
    if s.len() == 0 || doc_lt(x, s[0]) {
        assert(insert_doc(s, x)[0] == x);
    } else {
        lemma_insert_doc_has_x(s.drop_first(), x);
        let t = insert_doc(s.drop_first(), x);
        let j = choose|j: int| 0 <= j < t.len() && t[j] == x;
        assert(insert_doc(s, x)[j + 1] == x);
    }
}

proof fn lemma_insert_doc_keeps(s: Seq<DocEntryView>, x: DocEntryView, j: int)
    requires
        0 <= j < s.len(),
    ensures
        exists|k: int| 0 <= k < insert_doc(s, x).len() && insert_doc(s, x)[k] == s[j],
    decreases s.len(),
{
    lemma_insert_doc_len(s, x);
    if doc_lt(x, s[0]) {
        assert(insert_doc(s, x)[j + 1] == s[j]);
    } else if j == 0 {
        assert(insert_doc(s, x)[0] == s[0]);
    } else {
        lemma_insert_doc_keeps(s.drop_first(), x, j - 1);
        let t = insert_doc(s.drop_first(), x);
        let k = choose|k: int| 0 <= k < t.len() && t[k] == s.drop_first()[j - 1];
        assert(insert_doc(s, x)[k + 1] == s[j]);
    }
}

/// README first: when the walk found a `README.md`, the listing starts with it.
pub proof fn law_readme_first(walked: Seq<DocEntryView>)
    requires
        exists|i: int| 0 <= i < walked.len() && is_readme(#[trigger] walked[i].path),
    ensures
        list_docs_spec(walked).len() > 0,
        is_readme(list_docs_spec(walked)[0].path),
        list_docs_spec(walked).len() <= 500,
{
    let i = choose|i: int| 0 <= i < walked.len() && is_readme(#[trigger] walked[i].path);
    lemma_sort_docs_has(walked, i);
    lemma_sort_docs_len(walked);
    let s = sort_docs(walked);
    let j = choose|j: int| 0 <= j < s.len() && s[j] == walked[i];
    assert(is_readme(s[j].path));
    lemma_sort_docs_readme(walked);
    assert(list_docs_spec(walked)[0] == s[0]);
}

// ---------------------------------------------------------------------
// Client-supplied relative paths
// ---------------------------------------------------------------------

/// Why a relative path was refused.
#[derive(Clone, Debug)]
pub enum PathError {
    /// Absolute, `..`, or a leading `.`: the path would leave the project.
    NotInside,
    /// The file's extension is not one of these.
    Extension { allowed: Vec<String> },
    /// After resolving symlinks the path is outside the project.
    Escapes,
}

/// Only plain names: not absolute, no leading `.` component, no `..` anywhere.
pub open spec fn rel_is_inside(rel: Seq<char>) -> bool {
    &&& !(rel.len() > 0 && rel[0] == '/')
    &&& segments(rel)[0] != "."@
    &&& forall|i: int| 0 <= i < segments(rel).len() ==> #[trigger] segments(rel)[i] != ".."@
}

pub open spec fn resolve_spec(project_dir: Seq<char>, rel: Seq<char>, allowed: Seq<Seq<char>>) -> Result<
    Seq<char>,
    (),
> {
    if !rel_is_inside(rel) || !has_ext_spec(rel, allowed) {
        Err(())
    } else {
        Ok(path_join(project_dir, rel))
    }
}

pub proof fn lemma_segments_nonempty(p: Seq<char>)
    ensures
        segments(p).len() >= 1,
    decreases p.len(),
{
    lemma_find_char(p, '/');
    let i = find_char(p, '/');
    if i < p.len() {
        lemma_segments_nonempty(p.subrange(i + 1, p.len() as int));
    }
}

/// Lexical checks on a relative path, then its place under the project.
/// Refuses absolute paths, `..`, and extensions outside `allowed`.
pub fn resolve_rel_path(project_dir: &str, rel: &str, allowed: &Vec<String>) -> (r: Result<
    String,
    PathError,
>)
    ensures
        match r {
            Ok(p) => resolve_spec(project_dir@, rel@, strings_view(allowed@)) == Ok::<Seq<char>, ()>(p@),
            Err(PathError::NotInside) => !rel_is_inside(rel@),
            Err(PathError::Extension { allowed: a }) => rel_is_inside(rel@) && !has_ext_spec(
                rel@,
                strings_view(allowed@),
            ) && strings_view(a@) == strings_view(allowed@),
            Err(PathError::Escapes) => false,
        },
{
    let c = chars_of(rel);
    let segs = split_segments(&c);
    proof {
        lemma_segments_nonempty(rel@);
    }
    let dot = chars_of(".");
    let dotdot = chars_of("..");
    let mut inside = !(c.len() > 0 && c[0] == '/');
    proof {
        lemma_char_vec_deep(segs@[0]);
    }
    if crate::text::chars_eq(&segs[0], &dot) {
        inside = false;
    }
    let mut i: usize = 0;
    while i < segs.len()
        invariant
            i <= segs@.len(),
            segs.deep_view() == segments(rel@),
            dotdot@ == ".."@,
            inside == (!(rel@.len() > 0 && rel@[0] == '/') && segments(rel@)[0] != "."@ && forall|
                k: int,
            | 0 <= k < i ==> #[trigger] segments(rel@)[k] != ".."@),
        decreases segs.len() - i,
    {
        proof {
            lemma_char_vec_deep(segs@[i as int]);
            assert(segs.deep_view()[i as int] == segs@[i as int]@);
        }
        if crate::text::chars_eq(&segs[i], &dotdot) {
            inside = false;
        }
        i += 1;
    }
    if !inside {
        return Err(PathError::NotInside);
    }
    if !has_ext(rel, allowed) {
        return Err(PathError::Extension { allowed: crate::protocol::copy_strings(allowed) });
    }
    Ok(crate::config::join_path(project_dir, rel))
}

/// Resolve a client-supplied relative doc path (md, markdown, txt).
pub fn resolve_doc_path(project_dir: &str, rel: &str) -> (r: Result<String, PathError>)
    ensures
        match r {
            Ok(p) => resolve_spec(project_dir@, rel@, doc_exts()) == Ok::<Seq<char>, ()>(p@),
            Err(PathError::NotInside) => !rel_is_inside(rel@),
            Err(PathError::Extension { allowed: a }) => rel_is_inside(rel@) && !has_ext_spec(
                rel@,
                doc_exts(),
            ) && strings_view(a@) == doc_exts(),
            Err(PathError::Escapes) => false,
        },
{
    resolve_rel_path(project_dir, rel, &doc_extensions())
}

/// Same guards as docs, image extensions — backs `/raw`.
pub fn resolve_asset_path(project_dir: &str, rel: &str) -> (r: Result<String, PathError>)
    ensures
        match r {
            Ok(p) => resolve_spec(project_dir@, rel@, asset_exts()) == Ok::<Seq<char>, ()>(p@),
            Err(PathError::NotInside) => !rel_is_inside(rel@),
            Err(PathError::Extension { allowed: a }) => rel_is_inside(rel@) && !has_ext_spec(
                rel@,
                asset_exts(),
            ) && strings_view(a@) == asset_exts(),
            Err(PathError::Escapes) => false,
        },
{
    resolve_rel_path(project_dir, rel, &asset_extensions())
}

/// Components that carry a name: the non-empty pieces other than `.`.
pub open spec fn named(segs: Seq<Seq<char>>) -> Seq<Seq<char>>
    decreases segs.len(),
{
    if segs.len() == 0 {
        Seq::empty()
    } else {
        let rest = named(segs.drop_last());
        let l = segs.last();
        if l.len() == 0 || l == "."@ {
            rest
        } else {
            rest.push(l)
        }
    }
}

/// `Path::starts_with` on canonical paths: same root, and the base's
/// components are a prefix of the path's.
pub open spec fn path_within(base: Seq<char>, p: Seq<char>) -> bool {
    let b = named(segments(base));
    let q = named(segments(p));
    &&& (base.len() > 0 && base[0] == '/') == (p.len() > 0 && p[0] == '/')
    &&& b.len() <= q.len()
    &&& forall|i: int| 0 <= i < b.len() ==> b[i] == q[i]
}

fn named_exec(segs: &Vec<Vec<char>>) -> (r: Vec<Vec<char>>)
    ensures
        r.deep_view() == named(segs.deep_view()),
{
    let dot = chars_of(".");
    let mut r: Vec<Vec<char>> = Vec::new();
    let mut i: usize = 0;
    while i < segs.len()
        invariant
            i <= segs@.len(),
            dot@ == "."@,
            r.deep_view() == named(segs.deep_view().subrange(0, i as int)),
        decreases segs.len() - i,
    {
        let ghost pre = segs.deep_view().subrange(0, i as int);
        let ghost nxt = segs.deep_view().subrange(0, i + 1);
        assert(nxt.drop_last() =~= pre);
        proof {
            lemma_char_vec_deep(segs@[i as int]);
        }
        assert(nxt.last() == segs@[i as int]@);
        let s = &segs[i];
        if !(s.len() == 0 || crate::text::chars_eq(s, &dot)) {
            let copy = slice_chars(s, 0, s.len());
            assert(copy@ =~= s@);
            let ghost before = r.deep_view();
            proof {
                lemma_char_vec_deep(copy);
            }
            r.push(copy);
            assert(r.deep_view() =~= before.push(s@));
        }
        i += 1;
    }
    assert(segs.deep_view().subrange(0, segs@.len() as int) =~= segs.deep_view());
    r
}

/// The resolved path stays under the (canonical) project root.
pub fn inside_root(canon_root: &str, canon: &str) -> (r: bool)
    ensures
        r == path_within(canon_root@, canon@),
{
    let bc = chars_of(canon_root);
    let pc = chars_of(canon);
    let bs = split_segments(&bc);
    let ps = split_segments(&pc);
    let b = named_exec(&bs);
    let q = named_exec(&ps);
    let broot = bc.len() > 0 && bc[0] == '/';
    let proot = pc.len() > 0 && pc[0] == '/';
    if broot != proot || b.len() > q.len() {
        return false;
    }
    let mut i: usize = 0;
    while i < b.len()
        invariant
            i <= b@.len(),
            b@.len() <= q@.len(),
            b.deep_view() == named(segments(canon_root@)),
            q.deep_view() == named(segments(canon@)),
            broot == (canon_root@.len() > 0 && canon_root@[0] == '/'),
            proot == (canon@.len() > 0 && canon@[0] == '/'),
            broot == proot,
            forall|k: int| 0 <= k < i ==> b.deep_view()[k] == q.deep_view()[k],
        decreases b.len() - i,
    {
        proof {
            lemma_char_vec_deep(b@[i as int]);
            lemma_char_vec_deep(q@[i as int]);
            assert(b.deep_view()[i as int] == b@[i as int]@);
            assert(q.deep_view()[i as int] == q@[i as int]@);
        }
        if !crate::text::chars_eq(&b[i], &q[i]) {
            return false;
        }
        i += 1;
    }
    true
}

/// A checked path never reaches outside: no `..` piece, not absolute.
pub proof fn law_resolved_paths_stay_inside(project_dir: Seq<char>, rel: Seq<char>, allowed: Seq<Seq<char>>)
    requires
        resolve_spec(project_dir, rel, allowed) is Ok,
    ensures
        !(rel.len() > 0 && rel[0] == '/'),
        forall|i: int| 0 <= i < segments(rel).len() ==> segments(rel)[i] != ".."@,
        has_ext_spec(rel, allowed),
{
}

impl PathError {
    /// The error text the API reports.
    pub fn message(&self) -> (r: String)
        ensures
            r@ == path_error_text(*self),
    {
        match self {
            PathError::NotInside => String::from_str("path must be relative and stay inside the project"),
            PathError::Escapes => String::from_str("path escapes the project"),
            PathError::Extension { allowed } => {
                let mut out: Vec<char> = Vec::new();
                extend_str(&mut out, "only ");
                push_debug_list(&mut out, allowed);
                extend_str(&mut out, " files");
                string_of(&out)
            },
        }
    }
}

/// `{:?}` of a list of plain words: `["a", "b"]`.
pub open spec fn debug_list(words: Seq<Seq<char>>) -> Seq<char> {
    seq!['['] + join(words.map_values(|w: Seq<char>| seq!['"'] + w + seq!['"']), ", "@) + seq![']']
}

pub open spec fn path_error_text(e: PathError) -> Seq<char> {
    match e {
        PathError::NotInside => "path must be relative and stay inside the project"@,
        PathError::Escapes => "path escapes the project"@,
        PathError::Extension { allowed } => "only "@ + debug_list(strings_view(allowed@)) + " files"@,
    }
}

fn push_debug_list(out: &mut Vec<char>, words: &Vec<String>)
    ensures
        final(out)@ == old(out)@ + debug_list(strings_view(words@)),
{
    let mut quoted: Vec<Vec<char>> = Vec::new();
    let mut i: usize = 0;
    while i < words.len()
        invariant
            i <= words@.len(),
            quoted@.len() == i,
            forall|k: int|
                0 <= k < i ==> #[trigger] quoted@[k]@ == seq!['"'] + words@[k]@ + seq!['"'],
        decreases words.len() - i,
    {
        let mut q: Vec<char> = Vec::new();
        q.push('"');
        extend_str(&mut q, words[i].as_str());
        q.push('"');
        quoted.push(q);
        i += 1;
    }
    proof {
        assert forall|k: int| 0 <= k < quoted@.len() implies quoted.deep_view()[k] == strings_view(
            words@,
        ).map_values(|w: Seq<char>| seq!['"'] + w + seq!['"'])[k] by {
            lemma_char_vec_deep(quoted@[k]);
        }
        assert(quoted.deep_view() =~= strings_view(words@).map_values(
            |w: Seq<char>| seq!['"'] + w + seq!['"'],
        ));
    }
    let sep = chars_of(", ");
    let body = crate::text::join_chars(&quoted, &sep);
    out.push('[');
    extend_chars(out, &body);
    out.push(']');
    assert(final(out)@ =~= old(out)@ + debug_list(strings_view(words@)));
}

// ---------------------------------------------------------------------
// Writing a doc: the auto-commit's arguments and outcome
// ---------------------------------------------------------------------

/// `[prefrontal] note: <path>`.
pub fn commit_message(rel: &str) -> (r: String)
    ensures
        r@ == "[prefrontal] note: "@ + rel@,
{
    let mut out: Vec<char> = Vec::new();
    extend_str(&mut out, "[prefrontal] note: ");
    extend_str(&mut out, rel);
    string_of(&out)
}

pub open spec fn add_args_spec(rel: Seq<char>) -> Seq<Seq<char>> {
    seq!["add"@, "--"@, rel]
}

pub open spec fn commit_args_spec(rel: Seq<char>) -> Seq<Seq<char>> {
    seq!["commit"@, "-m"@, "[prefrontal] note: "@ + rel, "--"@, rel]
}

/// `git add -- <path>`: stage that file only.
pub fn git_add_args(rel: &str) -> (r: Vec<String>)
    ensures
        strings_view(r@) == add_args_spec(rel@),
{
    let mut v: Vec<String> = Vec::new();
    v.push(String::from_str("add"));
    v.push(String::from_str("--"));
    v.push(String::from_str(rel));
    assert(strings_view(v@) =~= add_args_spec(rel@));
    v
}

/// `git commit -m "[prefrontal] note: <path>" -- <path>`: the pathspec form
/// never sweeps up other staged work.
pub fn git_commit_args(rel: &str) -> (r: Vec<String>)
    ensures
        strings_view(r@) == commit_args_spec(rel@),
{
    let mut v: Vec<String> = Vec::new();
    v.push(String::from_str("commit"));
    v.push(String::from_str("-m"));
    v.push(commit_message(rel));
    v.push(String::from_str("--"));
    v.push(String::from_str(rel));
    assert(strings_view(v@) =~= commit_args_spec(rel@));
    v
}

/// `git rev-parse --short HEAD`.
pub fn git_rev_parse_args() -> (r: Vec<String>)
    ensures
        strings_view(r@) == seq!["rev-parse"@, "--short"@, "HEAD"@],
{
    let mut v: Vec<String> = Vec::new();
    v.push(String::from_str("rev-parse"));
    v.push(String::from_str("--short"));
    v.push(String::from_str("HEAD"));
    assert(strings_view(v@) =~= seq!["rev-parse"@, "--short"@, "HEAD"@]);
    v
}

pub struct WriteView {
    pub saved: bool,
    pub committed: bool,
    pub commit_id: Option<Seq<char>>,
    pub detail: Option<Seq<char>>,
}

pub open spec fn write_view(r: DocWriteResult) -> WriteView {
    WriteView {
        saved: r.saved,
        committed: r.committed,
        commit_id: opt_str_view(r.commit_id),
        detail: opt_str_view(r.detail),
    }
}

/// Saved into a folder that is no repository.
pub fn write_not_repo() -> (r: DocWriteResult)
    ensures
        write_view(r) == (WriteView {
            saved: true,
            committed: false,
            commit_id: None,
            detail: Some("not a git repository"@),
        }),
{
    DocWriteResult {
        saved: true,
        committed: false,
        commit_id: None,
        detail: Some(String::from_str("not a git repository")),
    }
}

/// `git add` failed: its trimmed stderr is the detail.
pub fn write_add_failed(stderr: &str) -> (r: DocWriteResult)
    ensures
        write_view(r) == (WriteView {
            saved: true,
            committed: false,
            commit_id: None,
            detail: Some(trim(Trim::Whitespace, stderr@)),
        }),
{
    let t = trim_chars(Trim::Whitespace, &chars_of(stderr));
    DocWriteResult { saved: true, committed: false, commit_id: None, detail: Some(string_of(&t)) }
}

/// Why `git commit` did not commit: "no changes to commit" when git says
/// so on stdout; else its stderr, or its stdout when stderr is empty.
pub open spec fn commit_failure_detail(stdout: Seq<char>, stderr: Seq<char>) -> Seq<char> {
    if contains_seq(stdout, "nothing to commit"@) || contains_seq(stdout, "no changes"@) {
        "no changes to commit"@
    } else if trim(Trim::Whitespace, stderr).len() == 0 {
        trim(Trim::Whitespace, stdout)
    } else {
        trim(Trim::Whitespace, stderr)
    }
}

/// `git commit` failed.
pub fn write_commit_failed(stdout: &str, stderr: &str) -> (r: DocWriteResult)
    ensures
        write_view(r) == (WriteView {
            saved: true,
            committed: false,
            commit_id: None,
            detail: Some(commit_failure_detail(stdout@, stderr@)),
        }),
{
    let out = chars_of(stdout);
    let nothing = chars_of("nothing to commit");
    let nochanges = chars_of("no changes");
    let detail = if contains_chars(&out, &nothing) || contains_chars(&out, &nochanges) {
        String::from_str("no changes to commit")
    } else {
        let err = trim_chars(Trim::Whitespace, &chars_of(stderr));
        if err.len() == 0 {
            string_of(&trim_chars(Trim::Whitespace, &out))
        } else {
            string_of(&err)
        }
    };
    DocWriteResult { saved: true, committed: false, commit_id: None, detail: Some(detail) }
}

/// Committed; the short hash comes from a successful `rev-parse`.
pub fn write_committed(rev_parse: Option<(bool, String)>) -> (r: DocWriteResult)
    ensures
        write_view(r) == (WriteView {
            saved: true,
            committed: true,
            commit_id: match rev_parse {
                Some(o) => if o.0 {
                    Some(trim(Trim::Whitespace, o.1@))
                } else {
                    None
                },
                None => None,
            },
            detail: None,
        }),
{
    let id = match rev_parse {
        Some((ok, out)) => if ok {
            Some(string_of(&trim_chars(Trim::Whitespace, &chars_of(out.as_str()))))
        } else {
            None
        },
        None => None,
    };
    DocWriteResult { saved: true, committed: true, commit_id: id, detail: None }
}

/// Where saving a note and committing it stands after its last step.
pub enum WriteStage {
    /// The file is written; `is_repo` says whether the project has a `.git`.
    Saved { is_repo: bool },
    /// `git add -- <path>` ran.
    Added { ok: bool, stderr: String },
    /// `git commit -m .. -- <path>` ran.
    Committed { ok: bool, stdout: String, stderr: String },
    /// `git rev-parse --short HEAD` ran (`None` when it could not be run).
    RevParsed(Option<(bool, String)>),
}

/// What to do next: run git with the given arguments, then report the
/// outcome as the matching stage, or stop with the report.
pub enum WriteNext {
    Add(Vec<String>),
    Commit(Vec<String>),
    RevParse(Vec<String>),
    Done(DocWriteResult),
}

/// The report of a commit whose short hash `rev-parse` gave, if it did.
pub open spec fn committed_view(rev_parse: Option<(bool, String)>) -> WriteView {
    WriteView {
        saved: true,
        committed: true,
        commit_id: match rev_parse {
            Some(o) => if o.0 {
                Some(trim(Trim::Whitespace, o.1@))
            } else {
                None
            },
            None => None,
        },
        detail: None,
    }
}

/// One step of writing the note at `rel`: outside a repository the save is
/// reported as is; otherwise `add` that file only, then `commit` it, then
/// read the short hash. A failed `add` or `commit` stops with its detail.
pub fn write_step(rel: &str, stage: WriteStage) -> (r: WriteNext)
    ensures
        match stage {
            WriteStage::Saved { is_repo } => if is_repo {
                r matches WriteNext::Add(a) && strings_view(a@) == add_args_spec(rel@)
            } else {
                r matches WriteNext::Done(w) && write_view(w) == (WriteView {
                    saved: true,
                    committed: false,
                    commit_id: None,
                    detail: Some("not a git repository"@),
                })
            },
            WriteStage::Added { ok, stderr } => if ok {
                r matches WriteNext::Commit(a) && strings_view(a@) == commit_args_spec(rel@)
            } else {
                r matches WriteNext::Done(w) && write_view(w) == (WriteView {
                    saved: true,
                    committed: false,
                    commit_id: None,
                    detail: Some(trim(Trim::Whitespace, stderr@)),
                })
            },
            WriteStage::Committed { ok, stdout, stderr } => if ok {
                r matches WriteNext::RevParse(a) && strings_view(a@) == seq!["rev-parse"@, "--short"@, "HEAD"@]
            } else {
                r matches WriteNext::Done(w) && write_view(w) == (WriteView {
                    saved: true,
                    committed: false,
                    commit_id: None,
                    detail: Some(commit_failure_detail(stdout@, stderr@)),
                })
            },
            WriteStage::RevParsed(o) => r matches WriteNext::Done(w) && write_view(w) == committed_view(o),
        },
{
    match stage {
        WriteStage::Saved { is_repo } => if is_repo {
            WriteNext::Add(git_add_args(rel))
        } else {
            WriteNext::Done(write_not_repo())
        },
        WriteStage::Added { ok, stderr } => if ok {
            WriteNext::Commit(git_commit_args(rel))
        } else {
            WriteNext::Done(write_add_failed(stderr.as_str()))
        },
        WriteStage::Committed { ok, stdout, stderr } => if ok {
            WriteNext::RevParse(git_rev_parse_args())
        } else {
            WriteNext::Done(write_commit_failed(stdout.as_str(), stderr.as_str()))
        },
        WriteStage::RevParsed(o) => WriteNext::Done(write_committed(o)),
    }
}

/// A write always reports `saved`; a commit carries no detail and a missed
/// commit carries no id but says why.
pub open spec fn honest_report(w: WriteView) -> bool {
    &&& w.saved
    &&& w.committed ==> w.detail is None
    &&& !w.committed ==> (w.commit_id is None && w.detail is Some)
}

pub proof fn law_write_reports_honestly(stdout: Seq<char>, stderr: Seq<char>, id: Option<Seq<char>>)
    ensures
        honest_report(WriteView { saved: true, committed: false, commit_id: None, detail: Some("not a git repository"@) }),
        honest_report(WriteView { saved: true, committed: false, commit_id: None, detail: Some(trim(Trim::Whitespace, stderr)) }),
        honest_report(WriteView { saved: true, committed: false, commit_id: None, detail: Some(commit_failure_detail(stdout, stderr)) }),
        honest_report(WriteView { saved: true, committed: true, commit_id: id, detail: None }),
{
}

} // verus!
