//! Recall: what goes into the full-text index (one document per file, per
//! declaration and per commit), which files are indexable, and how a hit is
//! enriched with a line number and a snippet. The index itself (tantivy on
//! disk) is driven by the application.

use vstd::prelude::*;

use crate::docs::{doc_exts, extension, file_name, in_list, last_name, extension_of, rfind_char, lemma_rfind, segments};
use crate::protocol::{opt_str_view, strings_view};
use crate::scan::{is_skip_dir, short_id, skip_dir};
use crate::symbols::{extract, extract_spec, symbols_view, Symbol, SymbolView};
use crate::text::{
    chars_of, clip, clip_chars, contains_chars, contains_seq, extend_str,
    is_whitespace, is_ws, lemma_char_vec_deep, lines, lowercase, slice_chars, split_lines, str_eq,
    string_of, to_lower, trim, trim_chars, Trim,
};

verus! {

pub open spec fn code_exts() -> Seq<Seq<char>> {
    seq![
        "rs"@, "py"@, "js"@, "ts"@, "jsx"@, "tsx"@, "gd"@, "c"@, "h"@, "cpp"@, "hpp"@, "cc"@, "go"@,
        "java"@, "rb"@, "sh"@, "bash"@, "toml"@, "yaml"@, "yml"@, "css"@, "html"@, "slint"@, "sql"@,
        "proto"@, "json"@,
    ]
}

pub fn code_extensions() -> (r: Vec<String>)
    ensures
        strings_view(r@) == code_exts(),
{
    let mut v: Vec<String> = Vec::new();
    v.push(String::from_str("rs"));
    v.push(String::from_str("py"));
    v.push(String::from_str("js"));
    v.push(String::from_str("ts"));
    v.push(String::from_str("jsx"));
    v.push(String::from_str("tsx"));
    v.push(String::from_str("gd"));
    v.push(String::from_str("c"));
    v.push(String::from_str("h"));
    v.push(String::from_str("cpp"));
    v.push(String::from_str("hpp"));
    v.push(String::from_str("cc"));
    v.push(String::from_str("go"));
    v.push(String::from_str("java"));
    v.push(String::from_str("rb"));
    v.push(String::from_str("sh"));
    v.push(String::from_str("bash"));
    v.push(String::from_str("toml"));
    v.push(String::from_str("yaml"));
    v.push(String::from_str("yml"));
    v.push(String::from_str("css"));
    v.push(String::from_str("html"));
    v.push(String::from_str("slint"));
    v.push(String::from_str("sql"));
    v.push(String::from_str("proto"));
    v.push(String::from_str("json"));
    assert(strings_view(v@) =~= code_exts());
    v
}

/// What an indexed file is.
#[derive(Clone, Copy, PartialEq, Eq, Structural, Debug)]
pub enum FileKind {
    Doc,
    Code,
}

/// The lowercased extension, or the empty text when there is none.
pub open spec fn lower_ext(path: Seq<char>) -> Seq<char> {
    match last_name(segments(path)) {
        Some(n) => match extension_of(n) {
            Some(e) => lowercase(e),
            None => Seq::empty(),
        },
        None => Seq::empty(),
    }
}

/// Docs by doc extension, code by code extension, everything else skipped.
pub open spec fn file_kind_spec(path: Seq<char>) -> Option<FileKind> {
    if doc_exts().contains(lower_ext(path)) {
        Some(FileKind::Doc)
    } else if code_exts().contains(lower_ext(path)) {
        Some(FileKind::Code)
    } else {
        None
    }
}

/// Which kind of document a walked file becomes, if any.
pub fn file_kind(path: &str) -> (r: Option<FileKind>)
    ensures
        r == file_kind_spec(path@),
{
    let ext: String = match file_name(path) {
        Some(n) => match extension(&n) {
            Some(e) => to_lower(string_of(&e).as_str()),
            None => String::new(),
        },
        None => String::new(),
    };
    assert(ext@ == lower_ext(path@));
    if in_list(ext.as_str(), &crate::docs::doc_extensions()) {
        Some(FileKind::Doc)
    } else if in_list(ext.as_str(), &code_extensions()) {
        Some(FileKind::Code)
    } else {
        None
    }
}

/// The name the index stores for a kind.
pub open spec fn kind_text(k: FileKind) -> Seq<char> {
    match k {
        FileKind::Doc => "doc"@,
        FileKind::Code => "code"@,
    }
}

pub fn kind_name(k: FileKind) -> (r: String)
    ensures
        r@ == kind_text(k),
{
    match k {
        FileKind::Doc => String::from_str("doc"),
        FileKind::Code => String::from_str("code"),
    }
}

/// Deepest directory level the indexer enters.
pub const MAX_INDEX_DEPTH: u32 = 8;
/// Files above this size are not indexed.
pub const MAX_FILE_BYTES: u64 = 262144;
/// At most this many commits per project.
pub const MAX_COMMITS: usize = 1000;
/// Snippets are clipped to this many characters.
pub const SNIPPET_CHARS: usize = 160;

/// Entries the file walk skips outright: hidden names.
pub fn walk_skips(name: &str) -> (r: bool)
    ensures
        r == (name@.len() > 0 && name@[0] == '.'),
{
    let c = chars_of(name);
    c.len() > 0 && c[0] == '.'
}

/// Directories the file walk enters (hidden ones were skipped already).
pub fn walk_enters(name: &str, depth: u32) -> (r: bool)
    ensures
        r == (!is_skip_dir(name@) && depth + 1 <= 8),
{
    !skip_dir(name) && depth < MAX_INDEX_DEPTH
}

// ---------------------------------------------------------------------
// Indexable content
// ---------------------------------------------------------------------

/// Size cap: files over 256 KiB are left out.
pub fn within_size_limit(len: u64) -> (r: bool)
    ensures
        r == (len <= 262144),
{
    len <= MAX_FILE_BYTES
}

/// `String::from_utf8_lossy`: invalid sequences become U+FFFD.
pub uninterp spec fn utf8_lossy(bytes: Seq<u8>) -> Seq<char>;

/// `String::from_utf8_lossy(bytes).into_owned()`; the result is named by `utf8_lossy`.
#[verifier::external_body]
fn decode_lossy(bytes: &[u8]) -> (r: String)
    ensures
        r@ == utf8_lossy(bytes@),
{
    String::from_utf8_lossy(bytes).into_owned()
}

/// A NUL byte among the first 1024 marks a binary file.
pub open spec fn looks_binary(bytes: Seq<u8>) -> bool {
    exists|i: int| 0 <= i < bytes.len() && i < 1024 && bytes[i] == 0
}

/// Binary-sniffed text of a file's bytes.
pub fn indexable_text(bytes: &[u8]) -> (r: Option<String>)
    ensures
        match r {
            Some(s) => !looks_binary(bytes@) && s@ == utf8_lossy(bytes@),
            None => looks_binary(bytes@),
        },
{
    let mut i: usize = 0;
    while i < bytes.len() && i < 1024
        invariant
            i <= bytes@.len(),
            i <= 1024,
            forall|k: int| 0 <= k < i ==> bytes@[k] != 0,
        decreases bytes.len() - i,
    {
        if bytes[i] == 0 {
            return None;
        }
        i += 1;
    }
    Some(decode_lossy(bytes))
}

// ---------------------------------------------------------------------
// Commits for recall
// ---------------------------------------------------------------------

/// Newest-first walk entries, capped at 1000, unreadable ones dropped,
/// ids abbreviated.
pub open spec fn commit_log_spec(walk: Seq<Option<(String, String)>>) -> Seq<(Seq<char>, Seq<char>)>
    decreases walk.len(),
{
    if walk.len() == 0 {
        Seq::empty()
    } else if walk.len() > 1000 {
        commit_log_spec(walk.subrange(0, 1000))
    } else {
        let rest = commit_log_spec(walk.drop_last());
        match walk.last() {
            Some(e) => rest.push((short_id(e.0@), e.1@)),
            None => rest,
        }
    }
}

pub open spec fn pairs_view(v: Seq<(String, String)>) -> Seq<(Seq<char>, Seq<char>)> {
    v.map_values(|p: (String, String)| (p.0@, p.1@))
}

fn short(id: &str) -> (r: String)
    ensures
        r@ == short_id(id@),
{
    let c = chars_of(id);
    if c.len() <= 8 {
        string_of(&c)
    } else {
        string_of(&slice_chars(&c, 0, 8))
    }
}

/// Commit summaries for the index: `(short id, summary)`, at most 1000.
pub fn commit_log(walk: &Vec<Option<(String, String)>>) -> (r: Vec<(String, String)>)
    ensures
        pairs_view(r@) == commit_log_spec(walk@),
{
    let n = if walk.len() > MAX_COMMITS {
        MAX_COMMITS
    } else {
        walk.len()
    };
    let ghost w = walk@.subrange(0, n as int);
    assert(commit_log_spec(walk@) == commit_log_spec(w)) by {
        if walk@.len() <= 1000 {
            assert(w =~= walk@);
        }
    }
    let mut r: Vec<(String, String)> = Vec::new();
    let mut i: usize = 0;
    while i < n
        invariant
            n <= walk@.len(),
            n <= 1000,
            i <= n,
            w == walk@.subrange(0, n as int),
            pairs_view(r@) == commit_log_spec(w.subrange(0, i as int)),
        decreases n - i,
    {
        let ghost pre = pairs_view(r@);
        assert(w.subrange(0, i + 1).drop_last() =~= w.subrange(0, i as int));
        assert(w.subrange(0, i + 1).last() == walk@[i as int]);
        match &walk[i] {
            Some((id, summary)) => {
                r.push((short(id.as_str()), crate::protocol::copy_string(summary)));
                assert(pairs_view(r@) =~= pre.push((short_id(id@), summary@)));
            },
            None => {},
        }
        i += 1;
    }
    assert(w.subrange(0, n as int) =~= w);
    r
}

// ---------------------------------------------------------------------
// Index documents
// ---------------------------------------------------------------------

/// One document for the index.
#[derive(Clone, Debug)]
pub struct IndexDoc {
    pub project: String,
    /// File path, or the abbreviated commit id.
    pub path: String,
    /// "code" | "doc" | "symbol" | "commit"
    pub kind: String,
    /// The indexed (not stored) text.
    pub content: String,
    /// Stored text: the signature of a symbol, the summary of a commit.
    pub stored_text: Option<String>,
    /// 1-based declaration line, symbols only.
    pub line: Option<u64>,
}

pub struct IndexDocView {
    pub project: Seq<char>,
    pub path: Seq<char>,
    pub kind: Seq<char>,
    pub content: Seq<char>,
    pub stored_text: Option<Seq<char>>,
    pub line: Option<u64>,
}

impl View for IndexDoc {
    type V = IndexDocView;

    open spec fn view(&self) -> IndexDocView {
        IndexDocView {
            project: self.project@,
            path: self.path@,
            kind: self.kind@,
            content: self.content@,
            stored_text: opt_str_view(self.stored_text),
            line: self.line,
        }
    }
}

pub open spec fn index_docs_view(v: Seq<IndexDoc>) -> Seq<IndexDocView> {
    v.map_values(|d: IndexDoc| d@)
}

/// A walked file: its relative path, its kind, and its text when indexable.
#[derive(Clone, Debug)]
pub struct WalkedFile {
    pub rel: String,
    pub kind: FileKind,
    pub content: Option<String>,
}

/// `rel.rsplit('.').next()`: the text after the last `.` of the whole path.
pub open spec fn after_last_dot(s: Seq<char>) -> Seq<char> {
    s.subrange(rfind_char(s, '.') + 1, s.len() as int)
}

/// The symbol cards of a file: a tiny doc per declaration.
pub open spec fn symbol_docs(project: Seq<char>, rel: Seq<char>, syms: Seq<SymbolView>) -> Seq<IndexDocView> {
    syms.map_values(
        |s: SymbolView|
            IndexDocView {
                project,
                path: rel,
                kind: "symbol"@,
                content: s.kind + seq![' '] + s.name,
                stored_text: Some(s.signature),
                line: Some(s.line as u64),
            },
    )
}

/// The documents of one file: its symbol cards (code only), then the file.
pub open spec fn file_docs(project: Seq<char>, f: WalkedFile) -> Seq<IndexDocView> {
    match f.content {
        None => Seq::empty(),
        Some(c) => (if f.kind == FileKind::Code {
            symbol_docs(project, f.rel@, extract_spec(lowercase(after_last_dot(f.rel@)), c@))
        } else {
            Seq::empty()
        }) + seq![
            IndexDocView {
                project,
                path: f.rel@,
                kind: kind_text(f.kind),
                content: c@,
                stored_text: None,
                line: None,
            },
        ],
    }
}

pub open spec fn files_docs(project: Seq<char>, files: Seq<WalkedFile>) -> Seq<IndexDocView>
    decreases files.len(),
{
    if files.len() == 0 {
        Seq::empty()
    } else {
        files_docs(project, files.drop_last()) + file_docs(project, files.last())
    }
}

pub open spec fn commit_docs(project: Seq<char>, commits: Seq<(Seq<char>, Seq<char>)>) -> Seq<IndexDocView> {
    commits.map_values(
        |c: (Seq<char>, Seq<char>)|
            IndexDocView {
                project,
                path: c.0,
                kind: "commit"@,
                content: c.1,
                stored_text: Some(c.1),
                line: None,
            },
    )
}

/// Everything one project puts into the index, in insertion order.
pub open spec fn project_docs(project: Seq<char>, files: Seq<WalkedFile>, commits: Seq<(Seq<char>, Seq<char>)>) -> Seq<IndexDocView> {
    files_docs(project, files) + commit_docs(project, commits)
}

pub open spec fn files_fit(files: Seq<WalkedFile>) -> bool {
    forall|i: int|
        0 <= i < files.len() ==> match #[trigger] files[i].content {
            Some(c) => c@.len() < u32::MAX,
            None => true,
        }
}

pub fn after_dot_exec(rel: &str) -> (r: String)
    ensures
        r@ == after_last_dot(rel@),
{
    let c = chars_of(rel);
    let mut k: usize = c.len();
    while k > 0 && c[k - 1] != '.'
        invariant
            k <= c@.len(),
            forall|j: int| k <= j < c@.len() ==> c@[j] != '.',
        decreases k,
    {
        k -= 1;
    }
    proof {
        lemma_rfind(c@, '.');
        if k > 0 {
            assert(c@[k - 1] == '.');
        }
        lemma_rfind_eq(c@, '.', k - 1);
    }
    string_of(&slice_chars(&c, k, c.len()))
}

proof fn lemma_rfind_eq(s: Seq<char>, c: char, k: int)
    requires
        -1 <= k < s.len(),
        k >= 0 ==> s[k] == c,
        forall|j: int| k < j < s.len() ==> s[j] != c,
    ensures
        rfind_char(s, c) == k,
    decreases s.len(),
{
    if s.len() > 0 && k < s.len() - 1 {
        lemma_rfind_eq(s.drop_last(), c, k);
    }
}

fn push_symbol_docs(out: &mut Vec<IndexDoc>, project: &str, rel: &str, syms: Vec<Symbol>)
    ensures
        index_docs_view(final(out)@) == index_docs_view(old(out)@) + symbol_docs(
            project@,
            rel@,
            symbols_view(syms@),
        ),
{
    let ghost start = index_docs_view(out@);
    let ghost all = symbols_view(syms@);
    let mut src = syms;
    let n = src.len();
    let mut k: usize = 0;
    while k < n
        invariant
            src@.len() == n - k,
            k <= n,
            all.len() == n,
            forall|q: int| 0 <= q < n - k ==> #[trigger] src@[q]@ == all[k + q],
            index_docs_view(out@) == start + symbol_docs(project@, rel@, all.subrange(0, k as int)),
        decreases n - k,
    {
        let s = src.remove(0);
        assert(s@ == all[k as int]);
        let mut content: Vec<char> = Vec::new();
        extend_str(&mut content, s.kind.as_str());
        content.push(' ');
        extend_str(&mut content, s.name.as_str());
        let ghost pre = index_docs_view(out@);
        assert(content@ =~= all[k as int].kind + seq![' '] + all[k as int].name);
        let d = IndexDoc {
            project: String::from_str(project),
            path: String::from_str(rel),
            kind: String::from_str("symbol"),
            content: string_of(&content),
            stored_text: Some(s.signature),
            line: Some(s.line as u64),
        };
        assert(d@ == symbol_docs(project@, rel@, all)[k as int]);
        out.push(d);
        proof {
            assert(symbol_docs(project@, rel@, all.subrange(0, k + 1)) =~= symbol_docs(
                project@,
                rel@,
                all.subrange(0, k as int),
            ).push(symbol_docs(project@, rel@, all)[k as int]));
            assert(index_docs_view(out@) =~= pre.push(symbol_docs(project@, rel@, all)[k as int]));
            assert forall|q: int| 0 <= q < n - (k + 1) implies #[trigger] src@[q]@ == all[(k + 1) + q] by {
                assert(src@[q]@ == all[k + (q + 1)]);
            }
        }
        k += 1;
    }
    assert(all.subrange(0, n as int) =~= all);
}

/// Everything one project contributes to the index: per file its symbol
/// cards (code files) and the file itself, then one document per commit.
/// The count of documents indexed is the length of the result.
pub fn index_documents(project: &str, files: Vec<WalkedFile>, commits: &Vec<(String, String)>) -> (r: Vec<IndexDoc>)
    requires
        files_fit(files@),
    ensures
        index_docs_view(r@) == project_docs(project@, files@, pairs_view(commits@)),
{
    let ghost all = files@;
    let mut src = files;
    let mut out: Vec<IndexDoc> = Vec::new();
    let n = src.len();
    let mut k: usize = 0;
    assert(index_docs_view(out@) =~= files_docs(project@, all.subrange(0, 0)));
    while k < n
        invariant
            src@.len() == n - k,
            k <= n,
            all.len() == n,
            files_fit(all),
            forall|q: int| 0 <= q < n - k ==> #[trigger] src@[q] == all[k + q],
            index_docs_view(out@) == files_docs(project@, all.subrange(0, k as int)),
        decreases n - k,
    {
        let f = src.remove(0);
        assert(f == all[k as int]);
        let ghost fv = f;
        let ghost pre = index_docs_view(out@);
        assert(all.subrange(0, k + 1).drop_last() =~= all.subrange(0, k as int));
        let WalkedFile { rel, kind, content } = f;
        match content {
            Some(text) => {
                assert(text@.len() < u32::MAX);
                let ghost cards: Seq<IndexDocView> = if kind == FileKind::Code {
                    symbol_docs(project@, rel@, extract_spec(lowercase(after_last_dot(rel@)), text@))
                } else {
                    Seq::empty()
                };
                if kind == FileKind::Code {
                    let dot = after_dot_exec(rel.as_str());
                    let ext = to_lower(dot.as_str());
                    let syms = extract(ext.as_str(), text.as_str());
                    push_symbol_docs(&mut out, project, rel.as_str(), syms);
                } else {
                    assert(pre + cards =~= pre);
                }
                assert(index_docs_view(out@) == pre + cards);
                let ghost mid = index_docs_view(out@);
                let d = IndexDoc {
                    project: String::from_str(project),
                    path: rel,
                    kind: kind_name(kind),
                    content: text,
                    stored_text: None,
                    line: None,
                };
                assert(file_docs(project@, fv) == cards + seq![d@]);
                out.push(d);
                assert(index_docs_view(out@) =~= mid.push(d@));
                assert(index_docs_view(out@) =~= pre + file_docs(project@, fv));
            },
            None => {
                assert(file_docs(project@, fv) =~= Seq::<IndexDocView>::empty());
                assert(index_docs_view(out@) =~= pre + file_docs(project@, fv));
            },
        }
        proof {
            assert forall|q: int| 0 <= q < n - (k + 1) implies #[trigger] src@[q] == all[(k + 1) + q] by {
                assert(src@[q] == all[k + (q + 1)]);
            }
        }
        k += 1;
    }
    assert(all.subrange(0, n as int) =~= all);
    let ghost fdocs = index_docs_view(out@);
    let mut i: usize = 0;
    while i < commits.len()
        invariant
            i <= commits@.len(),
            index_docs_view(out@) == fdocs + commit_docs(project@, pairs_view(commits@).subrange(0, i as int)),
        decreases commits.len() - i,
    {
        let ghost pre = index_docs_view(out@);
        out.push(
            IndexDoc {
                project: String::from_str(project),
                path: crate::protocol::copy_string(&commits[i].0),
                kind: String::from_str("commit"),
                content: crate::protocol::copy_string(&commits[i].1),
                stored_text: Some(crate::protocol::copy_string(&commits[i].1)),
                line: None,
            },
        );
        proof {
            let cv = pairs_view(commits@);
            assert(commit_docs(project@, cv.subrange(0, i + 1)) =~= commit_docs(
                project@,
                cv.subrange(0, i as int),
            ).push(commit_docs(project@, cv)[i as int]));
            assert(index_docs_view(out@) =~= pre.push(commit_docs(project@, cv)[i as int]));
        }
        i += 1;
    }
    assert(pairs_view(commits@).subrange(0, commits@.len() as int) =~= pairs_view(commits@));
    out
}

// ---------------------------------------------------------------------
// Query terms and snippets
// ---------------------------------------------------------------------

/// `str::split_whitespace`: maximal runs of non-whitespace.
pub open spec fn words(s: Seq<char>) -> Seq<Seq<char>>
    decreases s.len(),
{
    words_from(s, Seq::empty())
}

/// Words of `s`, where `cur` is the word in progress before `s`.
pub open spec fn words_from(s: Seq<char>, cur: Seq<char>) -> Seq<Seq<char>>
    decreases s.len(),
{
    if s.len() == 0 {
        if cur.len() > 0 {
            seq![cur]
        } else {
            Seq::empty()
        }
    } else if is_ws(s[0]) {
        if cur.len() > 0 {
            seq![cur] + words_from(s.drop_first(), Seq::empty())
        } else {
            words_from(s.drop_first(), Seq::empty())
        }
    } else {
        words_from(s.drop_first(), cur.push(s[0]))
    }
}

/// Query words with surrounding quotes dropped, lowercased, empties removed.
pub open spec fn terms_of(ws: Seq<Seq<char>>) -> Seq<Seq<char>>
    decreases ws.len(),
{
    if ws.len() == 0 {
        Seq::empty()
    } else {
        let rest = terms_of(ws.drop_last());
        let t = lowercase(trim(Trim::Quotes, ws.last()));
        if t.len() > 0 {
            rest.push(t)
        } else {
            rest
        }
    }
}

pub fn split_words(s: &[char]) -> (r: Vec<Vec<char>>)
    ensures
        r.deep_view() == words(s@),
{
    let mut r: Vec<Vec<char>> = Vec::new();
    let mut cur: Vec<char> = Vec::new();
    let mut i: usize = 0;
    assert(s@.subrange(0, s@.len() as int) =~= s@);
    while i < s.len()
        invariant
            i <= s@.len(),
            words(s@) == r.deep_view() + words_from(s@.subrange(i as int, s@.len() as int), cur@),
        decreases s.len() - i,
    {
        let ghost rest = s@.subrange(i as int, s@.len() as int);
        assert(rest.drop_first() =~= s@.subrange(i + 1, s@.len() as int));
        assert(rest[0] == s@[i as int]);
        let ghost c0 = cur@;
        if is_whitespace(s[i]) {
            assert(words_from(rest, c0) == if c0.len() > 0 {
                seq![c0] + words_from(rest.drop_first(), Seq::empty())
            } else {
                words_from(rest.drop_first(), Seq::empty())
            });
            if cur.len() == 0 {
                assert(c0 =~= Seq::<char>::empty());
            }
            if cur.len() > 0 {
                let ghost before = r.deep_view();
                let ghost cw = cur@;
                proof {
                    lemma_char_vec_deep(cur);
                }
                r.push(cur);
                cur = Vec::new();
                assert(r.deep_view() =~= before.push(cw));
                assert(before + (seq![cw] + words_from(s@.subrange(i + 1, s@.len() as int), Seq::empty()))
                    =~= r.deep_view() + words_from(s@.subrange(i + 1, s@.len() as int), cur@));
            }
        } else {
            assert(words_from(rest, c0) == words_from(rest.drop_first(), c0.push(s@[i as int])));
            cur.push(s[i]);
        }
        i += 1;
    }
    if cur.len() > 0 {
        let ghost before = r.deep_view();
        let ghost cw = cur@;
        proof {
            lemma_char_vec_deep(cur);
        }
        r.push(cur);
        assert(r.deep_view() =~= before + seq![cw]);
    } else {
        assert(r.deep_view() + words_from(s@.subrange(s@.len() as int, s@.len() as int), cur@) =~= r.deep_view());
    }
    r
}

/// The terms a snippet is located by.
pub fn query_terms(query: &str) -> (r: Vec<String>)
    ensures
        strings_view(r@) == terms_of(words(query@)),
{
    let ws = split_words(&chars_of(query));
    let mut r: Vec<String> = Vec::new();
    let mut i: usize = 0;
    while i < ws.len()
        invariant
            i <= ws@.len(),
            ws.deep_view() == words(query@),
            strings_view(r@) == terms_of(ws.deep_view().subrange(0, i as int)),
        decreases ws.len() - i,
    {
        let ghost pre = strings_view(r@);
        proof {
            lemma_char_vec_deep(ws@[i as int]);
        }
        assert(ws.deep_view().subrange(0, i + 1).drop_last() =~= ws.deep_view().subrange(0, i as int));
        assert(ws.deep_view().subrange(0, i + 1).last() == ws@[i as int]@);
        let trimmed = string_of(&trim_chars(Trim::Quotes, &ws[i]));
        let t = to_lower(trimmed.as_str());
        if chars_of(t.as_str()).len() > 0 {
            r.push(t);
            assert(strings_view(r@) =~= pre.push(lowercase(trim(Trim::Quotes, ws@[i as int]@))));
        }
        i += 1;
    }
    assert(ws.deep_view().subrange(0, ws@.len() as int) =~= ws.deep_view());
    r
}

/// Some term occurs in the (lowercased) line.
pub open spec fn any_term_in(line: Seq<char>, terms: Seq<Seq<char>>) -> bool {
    exists|i: int| 0 <= i < terms.len() && contains_seq(line, #[trigger] terms[i])
}

/// Scan lines (numbered from `at + 1`): the first whose trimmed, lowercased
/// text holds a term, else the first non-empty one.
pub open spec fn snippet_scan(ls: Seq<Seq<char>>, at: int, terms: Seq<Seq<char>>, first: Option<(int, Seq<char>)>) -> (Option<int>, Seq<char>)
    decreases ls.len(),
{
    if ls.len() == 0 {
        match first {
            Some(f) => (Some(f.0), clip(f.1, 160)),
            None => (None, Seq::empty()),
        }
    } else {
        let line = trim(Trim::Whitespace, ls[0]);
        if line.len() == 0 {
            snippet_scan(ls.drop_first(), at + 1, terms, first)
        } else {
            let f = if first is None {
                Some((at + 1, line))
            } else {
                first
            };
            if any_term_in(lowercase(line), terms) {
                (Some(at + 1), clip(line, 160))
            } else {
                snippet_scan(ls.drop_first(), at + 1, terms, f)
            }
        }
    }
}

pub open spec fn snippet_spec(content: Seq<char>, terms: Seq<Seq<char>>) -> (Option<int>, Seq<char>) {
    snippet_scan(lines(content), 0, terms, None)
}

/// Line `j` (0-based) is the first non-blank line whose lowercased, trimmed
/// text holds one of the terms.
pub open spec fn first_term_line(ls: Seq<Seq<char>>, terms: Seq<Seq<char>>, j: int) -> bool {
    &&& 0 <= j < ls.len()
    &&& trim(Trim::Whitespace, ls[j]).len() > 0
    &&& exists|t: int| 0 <= t < terms.len() && contains_seq(lowercase(trim(Trim::Whitespace, ls[j])), #[trigger] terms[t])
    &&& forall|q: int, t: int|
        0 <= q < j && 0 <= t < terms.len() && trim(Trim::Whitespace, ls[q]).len() > 0 ==> !(#[trigger] contains_seq(lowercase(trim(Trim::Whitespace, ls[q])), terms[t]))
}

proof fn lemma_scan_finds_first_term_line(
    ls: Seq<Seq<char>>,
    at: int,
    terms: Seq<Seq<char>>,
    first: Option<(int, Seq<char>)>,
    j: int,
)
    requires
        first_term_line(ls, terms, j),
    ensures
        snippet_scan(ls, at, terms, first) == (Some(at + j + 1), clip(trim(Trim::Whitespace, ls[j]), 160)),
    decreases j,
{
    let line = trim(Trim::Whitespace, ls[0]);
    if j == 0 {
        let t = choose|t: int| 0 <= t < terms.len() && contains_seq(lowercase(line), #[trigger] terms[t]);
        assert(any_term_in(lowercase(line), terms));
    } else {
        let rest = ls.drop_first();
        if line.len() > 0 {
            assert forall|t: int| 0 <= t < terms.len() implies !contains_seq(lowercase(line), #[trigger] terms[t]) by {
                assert(0 <= 0 < j);
            }
            assert(!any_term_in(lowercase(line), terms));
        }
        assert(rest[j - 1] == ls[j]);
        assert forall|q: int, t: int|
            0 <= q < j - 1 && 0 <= t < terms.len() && trim(Trim::Whitespace, rest[q]).len() > 0 implies !(#[trigger] contains_seq(lowercase(trim(Trim::Whitespace, rest[q])), terms[t])) by {
            assert(rest[q] == ls[q + 1]);
        }
        let f = if line.len() > 0 && first is None {
            Some((at + 1, line))
        } else {
            first
        };
        lemma_scan_finds_first_term_line(rest, at + 1, terms, f, j - 1);
    }
}

/// A hit's snippet is the first non-blank line holding any one of the query
/// terms (lowercased, trimmed), numbered from 1: a single term suffices,
/// whatever the other terms are.
pub proof fn law_snippet_is_first_line_with_any_term(content: Seq<char>, terms: Seq<Seq<char>>, j: int)
    requires
        first_term_line(lines(content), terms, j),
    ensures
        snippet_spec(content, terms) == (Some(j + 1), clip(trim(Trim::Whitespace, lines(content)[j]), 160)),
{
    lemma_scan_finds_first_term_line(lines(content), 0, terms, None, j);
}

/// No non-blank line at or after position `at` holds a term.
pub open spec fn no_term_from(ls: Seq<Seq<char>>, terms: Seq<Seq<char>>) -> bool {
    forall|q: int, t: int|
        0 <= q < ls.len() && 0 <= t < terms.len() && trim(Trim::Whitespace, ls[q]).len() > 0 ==> !(#[trigger] contains_seq(lowercase(trim(Trim::Whitespace, ls[q])), terms[t]))
}

proof fn lemma_scan_falls_back(ls: Seq<Seq<char>>, at: int, terms: Seq<Seq<char>>, k: int)
    requires
        no_term_from(ls, terms),
        0 <= k < ls.len(),
        trim(Trim::Whitespace, ls[k]).len() > 0,
        forall|q: int| 0 <= q < k ==> trim(Trim::Whitespace, ls[q]).len() == 0,
    ensures
        snippet_scan(ls, at, terms, None) == (Some(at + k + 1), clip(trim(Trim::Whitespace, ls[k]), 160)),
    decreases k,
{
    let rest = ls.drop_first();
    assert forall|q: int, t: int|
        0 <= q < rest.len() && 0 <= t < terms.len() && trim(Trim::Whitespace, rest[q]).len() > 0 implies !(#[trigger] contains_seq(lowercase(trim(Trim::Whitespace, rest[q])), terms[t])) by {
        assert(rest[q] == ls[q + 1]);
    }
    if k == 0 {
        let line = trim(Trim::Whitespace, ls[0]);
        assert forall|t: int| 0 <= t < terms.len() implies !contains_seq(lowercase(line), #[trigger] terms[t]) by {
            assert(0 <= 0 < ls.len());
        }
        assert(!any_term_in(lowercase(line), terms));
        lemma_scan_keeps_first(rest, at + 1, terms, (at + 1, line));
    } else {
        assert(trim(Trim::Whitespace, ls[0]).len() == 0);
        assert(rest[k - 1] == ls[k]);
        assert forall|q: int| 0 <= q < k - 1 implies trim(Trim::Whitespace, rest[q]).len() == 0 by {
            assert(rest[q] == ls[q + 1]);
        }
        lemma_scan_falls_back(rest, at + 1, terms, k - 1);
    }
}

proof fn lemma_scan_keeps_first(ls: Seq<Seq<char>>, at: int, terms: Seq<Seq<char>>, f: (int, Seq<char>))
    requires
        no_term_from(ls, terms),
    ensures
        snippet_scan(ls, at, terms, Some(f)) == (Some(f.0), clip(f.1, 160)),
    decreases ls.len(),
{
    if ls.len() > 0 {
        let rest = ls.drop_first();
        let line = trim(Trim::Whitespace, ls[0]);
        if line.len() > 0 {
            assert forall|t: int| 0 <= t < terms.len() implies !contains_seq(lowercase(line), #[trigger] terms[t]) by {
                assert(0 <= 0 < ls.len());
            }
            assert(!any_term_in(lowercase(line), terms));
        }
        assert forall|q: int, t: int|
            0 <= q < rest.len() && 0 <= t < terms.len() && trim(Trim::Whitespace, rest[q]).len() > 0 implies !(#[trigger] contains_seq(lowercase(trim(Trim::Whitespace, rest[q])), terms[t])) by {
            assert(rest[q] == ls[q + 1]);
        }
        lemma_scan_keeps_first(rest, at + 1, terms, f);
    }
}

/// When no non-blank line holds any term, the snippet is the first
/// non-blank line (numbered from 1).
pub proof fn law_snippet_falls_back_to_first_line(content: Seq<char>, terms: Seq<Seq<char>>, k: int)
    requires
        no_term_from(lines(content), terms),
        0 <= k < lines(content).len(),
        trim(Trim::Whitespace, lines(content)[k]).len() > 0,
        forall|q: int| 0 <= q < k ==> trim(Trim::Whitespace, lines(content)[q]).len() == 0,
    ensures
        snippet_spec(content, terms) == (Some(k + 1), clip(trim(Trim::Whitespace, lines(content)[k]), 160)),
{
    lemma_scan_falls_back(lines(content), 0, terms, k);
}

fn any_term(line: &[char], terms: &Vec<String>) -> (r: bool)
    ensures
        r == any_term_in(line@, strings_view(terms@)),
{
    let mut i: usize = 0;
    while i < terms.len()
        invariant
            i <= terms@.len(),
            forall|k: int| 0 <= k < i ==> !contains_seq(line@, terms@[k]@),
        decreases terms.len() - i,
    {
        if contains_chars(line, &chars_of(terms[i].as_str())) {
            assert(strings_view(terms@)[i as int] == terms@[i as int]@);
            return true;
        }
        i += 1;
    }
    proof {
        assert forall|k: int| 0 <= k < strings_view(terms@).len() implies !contains_seq(line@, #[trigger] strings_view(terms@)[k]) by {
            assert(strings_view(terms@)[k] == terms@[k]@);
        }
    }
    false
}

/// First line containing any query term (1-based), else the first non-empty line.
pub fn locate_snippet(content: &str, terms: &Vec<String>) -> (r: (Option<u32>, String))
    requires
        content@.len() < u32::MAX,
    ensures
        (match r.0 {
            Some(l) => Some(l as int),
            None => None::<int>,
        }, r.1@) == snippet_spec(content@, strings_view(terms@)),
{
    let cs = chars_of(content);
    let all = split_lines(&cs);
    let ghost ls = lines(content@);
    proof {
        crate::symbols::lemma_lines_len(content@);
    }
    let ghost tv = strings_view(terms@);
    let mut first: Option<(u32, Vec<char>)> = None;
    let mut i: usize = 0;
    assert(ls.subrange(0, ls.len() as int) =~= ls);
    while i < all.len()
        invariant
            all.deep_view() == ls,
            ls.len() < u32::MAX,
            i <= ls.len(),
            tv == strings_view(terms@),
            first is Some ==> (first->0).0 <= i,
            snippet_spec(content@, tv) == snippet_scan(
                ls.subrange(i as int, ls.len() as int),
                i as int,
                tv,
                match first {
                    Some(f) => Some((f.0 as int, f.1@)),
                    None => None,
                },
            ),
            ls == lines(content@),
        decreases all.len() - i,
    {
        let ghost rest = ls.subrange(i as int, ls.len() as int);
        proof {
            lemma_char_vec_deep(all@[i as int]);
        }
        assert(rest[0] == all@[i as int]@);
        assert(rest.drop_first() =~= ls.subrange(i + 1, ls.len() as int));
        let line = trim_chars(Trim::Whitespace, &all[i]);
        if line.len() > 0 {
            if first.is_none() {
                first = Some((i as u32 + 1, slice_chars(&line, 0, line.len())));
                assert((first->0).1@ =~= line@);
            }
            let lower_s = to_lower(string_of(&line).as_str());
            let lower = chars_of(lower_s.as_str());
            if any_term(&lower, terms) {
                return (Some(i as u32 + 1), string_of(&clip_chars(&line, SNIPPET_CHARS)));
            }
        }
        i += 1;
    }
    match first {
        Some((n, l)) => (Some(n), string_of(&clip_chars(&l, SNIPPET_CHARS))),
        None => (None, String::new()),
    }
}

/// Whether a hit's snippet is located in its file's text: every kind but
/// commits and symbols, which carry their own.
pub fn hit_reads_file(kind: &str) -> (r: bool)
    ensures
        r == !(kind@ == "commit"@ || kind@ == "symbol"@),
{
    !(str_eq(kind, "commit") || str_eq(kind, "symbol"))
}

/// How a hit is shown: a line number and a snippet.
/// Commits show their stored summary, symbols their signature and line;
/// file hits are located in the file's text (`None` when it is unknown or
/// unreadable).
pub fn hit_details(kind: &str, stored_text: &str, line: Option<u64>, file_text: &Option<String>, terms: &Vec<String>) -> (r: (Option<u32>, String))
    requires
        match file_text {
            Some(t) => t@.len() < u32::MAX,
            None => true,
        },
    ensures
        kind@ == "commit"@ ==> r.0 is None && r.1@ == stored_text@,
        kind@ == "symbol"@ ==> r.1@ == stored_text@ && match line {
            Some(l) => r.0 == Some(l as u32),
            None => r.0 is None,
        },
        kind@ != "commit"@ && kind@ != "symbol"@ ==> match file_text {
            Some(t) => (match r.0 {
                Some(l) => Some(l as int),
                None => None::<int>,
            }, r.1@) == snippet_spec(t@, strings_view(terms@)),
            None => r.0 is None && r.1@.len() == 0,
        },
{
    proof {
        reveal_strlit("commit");
        reveal_strlit("symbol");
        assert("commit"@[0] != "symbol"@[0]);
    }
    if str_eq(kind, "commit") {
        (None, String::from_str(stored_text))
    } else if str_eq(kind, "symbol") {
        let l = match line {
            Some(v) => Some(#[verifier::truncate] (v as u32)),
            None => None,
        };
        (l, String::from_str(stored_text))
    } else {
        match file_text {
            Some(t) => locate_snippet(t.as_str(), terms),
            None => (None, String::new()),
        }
    }
}

/// The search route caps `limit` at 100.
pub fn capped_limit(limit: usize) -> (r: usize)
    ensures
        r == if limit < 100 { limit } else { 100 },
{
    if limit < 100 {
        limit
    } else {
        100
    }
}

} // verus!
