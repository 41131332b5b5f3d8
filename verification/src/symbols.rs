//! Symbol extraction — line-based regular expressions per language: every
//! `fn`/`struct`/`class`/`def` declaration by name, with its line and its
//! (trimmed, clipped) declaration text.

use vstd::prelude::*;

use crate::protocol::opt_str_view;
use crate::scan::take_first;
use crate::text::{
    chars_of, clip, clip_chars, lemma_char_vec_deep, lines, split_lines, str_eq, string_of, trim,
    trim_chars, Trim,
};

verus! {

pub const RS_FN: &'static str = r#"^\s*(?:pub(?:\([^)]*\))?\s+)?(?:default\s+|const\s+|async\s+|unsafe\s+|extern\s+"[^"]*"\s+)*fn\s+([A-Za-z_]\w*)"#;
pub const RS_STRUCT: &'static str = r"^\s*(?:pub(?:\([^)]*\))?\s+)?struct\s+([A-Za-z_]\w*)";
pub const RS_ENUM: &'static str = r"^\s*(?:pub(?:\([^)]*\))?\s+)?enum\s+([A-Za-z_]\w*)";
pub const RS_TRAIT: &'static str = r"^\s*(?:pub(?:\([^)]*\))?\s+)?(?:unsafe\s+)?trait\s+([A-Za-z_]\w*)";
pub const RS_MACRO: &'static str = r"^\s*macro_rules!\s*([A-Za-z_]\w*)";
pub const PY_DEF: &'static str = r"^\s*(?:async\s+)?def\s+([A-Za-z_]\w*)";
pub const PY_CLASS: &'static str = r"^\s*class\s+([A-Za-z_]\w*)";
pub const JS_FUNCTION: &'static str = r"^\s*(?:export\s+)?(?:default\s+)?(?:async\s+)?function\s*\*?\s*([A-Za-z_$][\w$]*)";
pub const JS_CLASS: &'static str = r"^\s*(?:export\s+)?(?:abstract\s+)?class\s+([A-Za-z_$][\w$]*)";
pub const JS_ARROW: &'static str = r"^\s*(?:export\s+)?(?:const|let)\s+([A-Za-z_$][\w$]*)\s*=\s*(?:async\s*)?(?:\([^)]*\)|[A-Za-z_$][\w$]*)\s*=>";
pub const GD_FUNC: &'static str = r"^\s*(?:static\s+)?func\s+([A-Za-z_]\w*)";
pub const GD_CLASS_NAME: &'static str = r"^class_name\s+([A-Za-z_]\w*)";
pub const GD_CLASS: &'static str = r"^class\s+([A-Za-z_]\w*)";
pub const GO_FUNC: &'static str = r"^func\s+(?:\([^)]*\)\s*)?([A-Za-z_]\w*)";
pub const SH_FUNCTION: &'static str = r"^\s*(?:function\s+)?([A-Za-z_]\w*)\s*\(\)\s*\{";

/// At most this many symbols per file.
pub const MAX_SYMBOLS_PER_FILE: usize = 500;
/// Declaration text is clipped to this many characters.
pub const MAX_SIGNATURE_CHARS: usize = 120;

/// One declaration found in a file.
#[derive(Clone, Debug)]
pub struct Symbol {
    /// "fn" | "struct" | "enum" | "trait" | "macro" | "class" | "def" | "func" | "function"
    pub kind: String,
    pub name: String,
    /// 1-based.
    pub line: u32,
    /// The declaration line, trimmed.
    pub signature: String,
}

pub struct SymbolView {
    pub kind: Seq<char>,
    pub name: Seq<char>,
    pub line: u32,
    pub signature: Seq<char>,
}

impl View for Symbol {
    type V = SymbolView;

    open spec fn view(&self) -> SymbolView {
        SymbolView { kind: self.kind@, name: self.name@, line: self.line, signature: self.signature@ }
    }
}

pub open spec fn symbols_view(v: Seq<Symbol>) -> Seq<SymbolView> {
    v.map_values(|s: Symbol| s@)
}

/// A rule: the kind it reports and its pattern (group 1 is the name).
pub type Rule = (Seq<char>, Seq<char>);

/// The rules of the language a file extension belongs to, in the order tried.
pub open spec fn lang_rules(ext: Seq<char>) -> Option<Seq<Rule>> {
    if ext == "rs"@ {
        Some(
            seq![("fn"@, RS_FN@), ("struct"@, RS_STRUCT@), ("enum"@, RS_ENUM@), ("trait"@, RS_TRAIT@), ("macro"@, RS_MACRO@)],
        )
    } else if ext == "py"@ {
        Some(seq![("def"@, PY_DEF@), ("class"@, PY_CLASS@)])
    } else if ext == "js"@ || ext == "jsx"@ || ext == "ts"@ || ext == "tsx"@ {
        Some(seq![("function"@, JS_FUNCTION@), ("class"@, JS_CLASS@), ("function"@, JS_ARROW@)])
    } else if ext == "gd"@ {
        Some(seq![("func"@, GD_FUNC@), ("class"@, GD_CLASS_NAME@), ("class"@, GD_CLASS@)])
    } else if ext == "go"@ {
        Some(seq![("func"@, GO_FUNC@)])
    } else if ext == "sh"@ || ext == "bash"@ {
        Some(seq![("function"@, SH_FUNCTION@)])
    } else {
        None
    }
}

/// TypeScript files (`.ts`, `.tsx`) and JSX files are read with the same
/// rules as JavaScript, and JavaScript has rules.
pub proof fn law_typescript_reads_as_javascript()
    ensures
        lang_rules("js"@) is Some,
        lang_rules("jsx"@) == lang_rules("js"@),
        lang_rules("ts"@) == lang_rules("js"@),
        lang_rules("tsx"@) == lang_rules("js"@),
{
    reveal_strlit("rs");
    reveal_strlit("py");
    reveal_strlit("js");
    reveal_strlit("jsx");
    reveal_strlit("ts");
    reveal_strlit("tsx");
    assert("jsx"@.len() != "rs"@.len() && "jsx"@.len() != "py"@.len() && "jsx"@.len() != "js"@.len());
    assert("tsx"@.len() != "rs"@.len() && "tsx"@.len() != "py"@.len() && "tsx"@.len() != "js"@.len());
    assert("tsx"@[0] != "jsx"@[0]);
    assert("ts"@[0] != "rs"@[0] && "ts"@[0] != "py"@[0] && "ts"@[0] != "js"@[0]);
    assert("js"@[0] != "rs"@[0] && "js"@[0] != "py"@[0]);
}

/// Group 1 of the first match of `pattern` in `line` (`None` when there is
/// no match or the group did not take part).
pub uninterp spec fn regex_capture(pattern: Seq<char>, line: Seq<char>) -> Option<Seq<char>>;

/// `regex::Regex::new(pattern)`, then `captures(line)` and group 1 of them;
/// the result is named by `regex_capture`.
#[verifier::external_body]
fn capture_group1(pattern: &str, line: &str) -> (r: Option<String>)
    ensures
        opt_str_view(r) == regex_capture(pattern@, line@),
{
    regex::Regex::new(pattern).ok().and_then(|re| re.captures(line)).and_then(|c| c.get(1)).map(
        |m| m.as_str().to_string(),
    )
}

/// The kind and name reported by the first rule whose group 1 matched.
pub open spec fn first_match(rules: Seq<Rule>, line: Seq<char>) -> Option<(Seq<char>, Seq<char>)>
    decreases rules.len(),
{
    if rules.len() == 0 {
        None
    } else {
        match regex_capture(rules[0].1, line) {
            Some(n) => Some((rules[0].0, n)),
            None => first_match(rules.drop_first(), line),
        }
    }
}

/// One symbol per matching line, numbered from 1, in line order.
pub open spec fn symbols_of(rules: Seq<Rule>, ls: Seq<Seq<char>>) -> Seq<SymbolView>
    decreases ls.len(),
{
    if ls.len() == 0 {
        Seq::empty()
    } else {
        let rest = symbols_of(rules, ls.drop_last());
        match first_match(rules, ls.last()) {
            Some(m) => rest.push(
                SymbolView {
                    kind: m.0,
                    name: m.1,
                    line: ls.len() as u32,
                    signature: clip(trim(Trim::Whitespace, ls.last()), 120),
                },
            ),
            None => rest,
        }
    }
}

/// What `extract` finds: nothing for unknown extensions, else the first 500
/// symbols of the file.
pub open spec fn extract_spec(ext: Seq<char>, content: Seq<char>) -> Seq<SymbolView> {
    match lang_rules(ext) {
        None => Seq::empty(),
        Some(rules) => take_first(symbols_of(rules, lines(content)), 500),
    }
}

fn rule(kind: &str, pattern: &str) -> (r: (String, String))
    ensures
        r.0@ == kind@,
        r.1@ == pattern@,
{
    (String::from_str(kind), String::from_str(pattern))
}

pub open spec fn rules_view(v: Seq<(String, String)>) -> Seq<Rule> {
    v.map_values(|r: (String, String)| (r.0@, r.1@))
}

/// The rules for an extension, as strings.
pub fn rules_for(ext: &str) -> (r: Option<Vec<(String, String)>>)
    ensures
        match r {
            Some(v) => lang_rules(ext@) == Some(rules_view(v@)),
            None => lang_rules(ext@) is None,
        },
{
    let mut v: Vec<(String, String)> = Vec::new();
    if str_eq(ext, "rs") {
        v.push(rule("fn", RS_FN));
        v.push(rule("struct", RS_STRUCT));
        v.push(rule("enum", RS_ENUM));
        v.push(rule("trait", RS_TRAIT));
        v.push(rule("macro", RS_MACRO));
    } else if str_eq(ext, "py") {
        v.push(rule("def", PY_DEF));
        v.push(rule("class", PY_CLASS));
    } else if str_eq(ext, "js") || str_eq(ext, "jsx") || str_eq(ext, "ts") || str_eq(ext, "tsx") {
        v.push(rule("function", JS_FUNCTION));
        v.push(rule("class", JS_CLASS));
        v.push(rule("function", JS_ARROW));
    } else if str_eq(ext, "gd") {
        v.push(rule("func", GD_FUNC));
        v.push(rule("class", GD_CLASS_NAME));
        v.push(rule("class", GD_CLASS));
    } else if str_eq(ext, "go") {
        v.push(rule("func", GO_FUNC));
    } else if str_eq(ext, "sh") || str_eq(ext, "bash") {
        v.push(rule("function", SH_FUNCTION));
    } else {
        return None;
    }
    let r = Some(v);
    proof {
        let rv = rules_view(v@);
        let lr = lang_rules(ext@)->0;
        assert(rv.len() == lr.len());
        assert(rv =~= lr);
    }
    r
}

fn match_line(rules: &Vec<(String, String)>, line: &str) -> (r: Option<(String, String)>)
    ensures
        match r {
            Some(m) => first_match(rules_view(rules@), line@) == Some((m.0@, m.1@)),
            None => first_match(rules_view(rules@), line@) is None,
        },
{
    let mut i: usize = 0;
    assert(rules_view(rules@).subrange(0, rules@.len() as int) =~= rules_view(rules@));
    while i < rules.len()
        invariant
            i <= rules@.len(),
            first_match(rules_view(rules@), line@) == first_match(
                rules_view(rules@).subrange(i as int, rules@.len() as int),
                line@,
            ),
        decreases rules.len() - i,
    {
        let ghost rest = rules_view(rules@).subrange(i as int, rules@.len() as int);
        assert(rest.drop_first() =~= rules_view(rules@).subrange(i + 1, rules@.len() as int));
        assert(rest[0] == (rules@[i as int].0@, rules@[i as int].1@));
        match capture_group1(rules[i].1.as_str(), line) {
            Some(name) => {
                return Some((copy_kind(&rules[i].0), name));
            },
            None => {},
        }
        i += 1;
    }
    None
}

fn copy_kind(s: &String) -> (r: String)
    ensures
        r@ == s@,
{
    s.clone()
}

proof fn lemma_symbols_prefix(rules: Seq<Rule>, ls: Seq<Seq<char>>, j: int)
    requires
        0 <= j <= ls.len(),
    ensures
        symbols_of(rules, ls.subrange(0, j)).len() <= symbols_of(rules, ls).len(),
        forall|q: int|
            0 <= q < symbols_of(rules, ls.subrange(0, j)).len() ==> symbols_of(rules, ls)[q]
                == symbols_of(rules, ls.subrange(0, j))[q],
    decreases ls.len() - j,
{
    if j < ls.len() {
        lemma_symbols_prefix(rules, ls.drop_last(), j);
        assert(ls.drop_last().subrange(0, j) =~= ls.subrange(0, j));
    } else {
        assert(ls.subrange(0, j) =~= ls);
    }
}

pub proof fn lemma_lines_len(s: Seq<char>)
    ensures
        lines(s).len() <= s.len(),
    decreases s.len(),
{
    if s.len() > 0 {
        crate::text::lemma_find_char(s, '\n');
        let i = crate::text::find_char(s, '\n');
        if i < s.len() {
            lemma_lines_len(s.subrange(i + 1, s.len() as int));
        }
    }
}

/// Extract declarations from one file. Unknown extensions yield nothing.
pub fn extract(extension: &str, content: &str) -> (r: Vec<Symbol>)
    requires
        content@.len() < u32::MAX,
    ensures
        symbols_view(r@) == extract_spec(extension@, content@),
{
    let rules = match rules_for(extension) {
        Some(v) => v,
        None => {
            let r: Vec<Symbol> = Vec::new();
            assert(symbols_view(r@) =~= Seq::<SymbolView>::empty());
            return r;
        },
    };
    let ghost rv = rules_view(rules@);
    assert(lang_rules(extension@) == Some(rv));
    let cs = chars_of(content);
    let all = split_lines(&cs);
    let ghost ls = lines(content@);
    proof {
        lemma_lines_len(content@);
    }
    assert(all.deep_view() == ls);
    let mut out: Vec<Symbol> = Vec::new();
    let mut i: usize = 0;
    assert(symbols_view(out@) =~= take_first(symbols_of(rv, ls.subrange(0, 0)), 500));
    while i < all.len()
        invariant
            rv == rules_view(rules@),
            lang_rules(extension@) == Some(rv),
            ls == lines(content@),
            all.deep_view() == ls,
            ls.len() < u32::MAX,
            i <= ls.len(),
            out@.len() < 500,
            symbols_view(out@) == take_first(symbols_of(rv, ls.subrange(0, i as int)), 500),
            symbols_of(rv, ls.subrange(0, i as int)).len() == out@.len(),
        decreases all.len() - i,
    {
        proof {
            lemma_char_vec_deep(all@[i as int]);
        }
        let line = string_of(&all[i]);
        assert(line@ == ls[i as int]);
        let ghost pre = ls.subrange(0, i as int);
        let ghost nxt = ls.subrange(0, i + 1);
        assert(nxt.drop_last() =~= pre);
        assert(nxt.last() == ls[i as int]);
        match match_line(&rules, line.as_str()) {
            Some((kind, name)) => {
                let trimmed = trim_chars(Trim::Whitespace, &all[i]);
                let signature = string_of(&clip_chars(&trimmed, MAX_SIGNATURE_CHARS));
                let ghost before = symbols_view(out@);
                out.push(Symbol { kind, name, line: i as u32 + 1, signature });
                assert(symbols_view(out@) =~= before.push(symbols_of(rv, nxt).last()));
            },
            None => {},
        }
        assert(symbols_view(out@) =~= symbols_of(rv, nxt));
        i += 1;
        if out.len() >= MAX_SYMBOLS_PER_FILE {
            proof {
                lemma_symbols_prefix(rv, ls, i as int);
                let full = symbols_of(rv, ls);
                let part = symbols_of(rv, ls.subrange(0, i as int));
                assert(part == symbols_view(out@));
                assert(take_first(full, 500) =~= take_first(part, 500));
                assert(take_first(part, 500) == part);
                assert(extract_spec(extension@, content@) == take_first(full, 500));
            }
            return out;
        }
    }
    assert(ls.subrange(0, ls.len() as int) =~= ls);
    out
}

/// Symbols come in increasing line order, at most 500 per file, each on a
/// line of the file (line numbers are `u32`, so the file has at most
/// `u32::MAX` lines).
pub proof fn law_symbols_bounded(ext: Seq<char>, content: Seq<char>)
    requires
        lines(content).len() <= u32::MAX,
    ensures
        extract_spec(ext, content).len() <= 500,
        forall|i: int|
            0 <= i < extract_spec(ext, content).len() ==> 1 <= #[trigger] extract_spec(ext, content)[i].line
                <= lines(content).len(),
        forall|i: int, j: int|
            0 <= i < j < extract_spec(ext, content).len() ==> extract_spec(ext, content)[i].line
                < extract_spec(ext, content)[j].line,
{
    match lang_rules(ext) {
        None => {},
        Some(rules) => {
            lemma_symbols_ordered(rules, lines(content));
        },
    }
}

proof fn lemma_symbols_ordered(rules: Seq<Rule>, ls: Seq<Seq<char>>)
    requires
        ls.len() <= u32::MAX,
    ensures
        forall|i: int|
            0 <= i < symbols_of(rules, ls).len() ==> 1 <= #[trigger] symbols_of(rules, ls)[i].line <= ls.len(),
        forall|i: int, j: int|
            0 <= i < j < symbols_of(rules, ls).len() ==> symbols_of(rules, ls)[i].line < symbols_of(
                rules,
                ls,
            )[j].line,
    decreases ls.len(),
{
    if ls.len() > 0 {
        let rest = symbols_of(rules, ls.drop_last());
        let all = symbols_of(rules, ls);
        lemma_symbols_ordered(rules, ls.drop_last());
        match first_match(rules, ls.last()) {
            Some(m) => {
                assert(all.len() == rest.len() + 1);
                assert(all.last().line == ls.len());
                assert forall|i: int| 0 <= i < all.len() implies 1 <= #[trigger] all[i].line <= ls.len() by {
                    if i < rest.len() {
                        assert(all[i] == rest[i]);
                    }
                }
                assert forall|i: int, j: int| 0 <= i < j < all.len() implies all[i].line < all[j].line by {
                    assert(all[i] == rest[i]);
                    if j < rest.len() {
                        assert(all[j] == rest[j]);
                    }
                }
            },
            None => {
                assert(all == rest);
            },
        }
    }
}

} // verus!
