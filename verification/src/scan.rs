//! The scanner's rules: what a project is made of, given the raw facts the
//! application read from disk and from git (`ProjectProbe`): activity from
//! last-touched time, health flags, the commit window, languages from
//! manifests, the README tagline, overrides, and newest-first ordering.

use vstd::prelude::*;

use crate::config::{
    find_override, lemma_find_override, lemma_no_override, Config,
    Thresholds, TimelineConfig,
};
use crate::protocol::{
    commits_view, copy_opt_string, copy_string, copy_strings, opt_git_view, opt_str_view,
    projects_view, strings_view, Activity, CommitSummary, CommitSummaryView, GitInfo, GitInfoView,
    HealthFlag, Project, ProjectView,
};
use crate::sort::{by_time, by_touched, is_desc, lemma_sort_desc, sort_commits_desc, sort_desc, sort_projects_desc};
use crate::text::{
    chars_of, find_char, lemma_find_char, lines, slice_chars, split_lines, starts_with,
    starts_with_chars, str_eq, string_of, trim, trim_chars, Trim,
};

verus! {

// ---------------------------------------------------------------------
// Raw facts gathered by the application
// ---------------------------------------------------------------------

/// One entry of the ancestry walk from HEAD.
#[derive(Clone, Debug)]
pub struct RawCommit {
    /// Full hex id.
    pub id: String,
    /// First line of the message.
    pub summary: String,
    /// Commit time; `None` when the object or its time could not be read.
    pub time_unix: Option<i64>,
}

/// The history behind a born HEAD.
#[derive(Clone, Debug)]
pub struct RawHistory {
    /// Time of the HEAD commit, if readable.
    pub head_time: Option<i64>,
    /// Every walk entry reachable from HEAD (empty when the walk failed).
    pub walk: Vec<RawCommit>,
}

/// What the repository says, read through git.
#[derive(Clone, Debug)]
pub struct RawGit {
    pub branch: Option<String>,
    /// `None` on an unborn HEAD.
    pub history: Option<RawHistory>,
    /// Fetch URL of `origin`.
    pub remote: Option<String>,
    /// Changed paths (index + worktree + untracked); `None` = unknown.
    pub dirty_files: Option<u32>,
}

/// Manifest files present at the project root, or (`*_nested`) in an
/// immediate subdirectory of it.
#[derive(Clone, Copy, Debug)]
pub struct Manifests {
    pub cargo: bool,
    pub cargo_nested: bool,
    pub package_json: bool,
    pub package_json_nested: bool,
    pub pyproject: bool,
    pub pyproject_nested: bool,
    pub requirements: bool,
    pub requirements_nested: bool,
    pub setup_py: bool,
    pub setup_py_nested: bool,
    pub godot: bool,
    pub godot_nested: bool,
}

/// Node's manifest at the root or one level down.
pub open spec fn has_node(m: Manifests) -> bool {
    m.package_json || m.package_json_nested
}

/// Any of Python's manifests at the root or one level down.
pub open spec fn has_python(m: Manifests) -> bool {
    m.pyproject || m.pyproject_nested || m.requirements || m.requirements_nested || m.setup_py
        || m.setup_py_nested
}

/// Everything read from disk about one project directory.
#[derive(Clone, Debug)]
pub struct ProjectProbe {
    pub path: String,
    /// Modification time of the directory itself (0 when unknown).
    pub dir_mtime: i64,
    /// `None` when there is no `.git` or the repository would not open.
    pub git: Option<RawGit>,
    pub manifests: Manifests,
    /// Contents of `README.md`, when readable.
    pub readme: Option<String>,
    pub has_readme: bool,
    pub has_claude_md: bool,
}

/// The walk fits the `u32` commit counter.
pub open spec fn probe_fits(p: ProjectProbe) -> bool {
    match p.git {
        Some(g) => match g.history {
            Some(h) => h.walk@.len() <= u32::MAX,
            None => true,
        },
        None => true,
    }
}

// ---------------------------------------------------------------------
// Skipped directories and ignored projects
// ---------------------------------------------------------------------

/// High-churn build output — never watched, never doc-walked.
pub open spec fn is_skip_dir(name: Seq<char>) -> bool {
    ||| name == "target"@
    ||| name == "node_modules"@
    ||| name == "venv"@
    ||| name == "__pycache__"@
    ||| name == "dist"@
    ||| name == "build"@
    ||| name == ".vite"@
}

pub fn skip_dir(name: &str) -> (r: bool)
    ensures
        r == is_skip_dir(name@),
{
    str_eq(name, "target") || str_eq(name, "node_modules") || str_eq(name, "venv") || str_eq(
        name,
        "__pycache__",
    ) || str_eq(name, "dist") || str_eq(name, "build") || str_eq(name, ".vite")
}

/// Hidden dirs, configured ignores, and per-project `ignore` overrides.
pub open spec fn ignored(name: Seq<char>, cfg: Config) -> bool {
    ||| (name.len() > 0 && name[0] == '.')
    ||| (exists|i: int| 0 <= i < cfg.ignore@.len() && #[trigger] cfg.ignore@[i]@ == name)
    ||| (match find_override(cfg.overrides@, name) {
        Some(o) => o.ignore,
        None => false,
    })
}

/// Skipped entirely: hidden dirs, configured ignores, and per-project `ignore` overrides.
pub fn is_ignored(name: &str, cfg: &Config) -> (r: bool)
    ensures
        r == ignored(name@, *cfg),
{
    let c = chars_of(name);
    if c.len() > 0 && c[0] == '.' {
        return true;
    }
    let mut i: usize = 0;
    while i < cfg.ignore.len()
        invariant
            i <= cfg.ignore@.len(),
            forall|k: int| 0 <= k < i ==> cfg.ignore@[k]@ != name@,
        decreases cfg.ignore.len() - i,
    {
        if str_eq(cfg.ignore[i].as_str(), name) {
            return true;
        }
        i += 1;
    }
    match cfg.override_for(name) {
        Some(k) => {
            proof {
                lemma_find_override(cfg.overrides@, name@, k as int);
            }
            cfg.overrides[k].1.ignore
        },
        None => {
            proof {
                lemma_no_override(cfg.overrides@, name@);
            }
            false
        },
    }
}

// ---------------------------------------------------------------------
// Activity
// ---------------------------------------------------------------------

/// Whole days between `last` and `now`, never negative.
pub open spec fn days_since(now: int, last: int) -> int {
    if now - last > 0 {
        (now - last) / 86400
    } else {
        0
    }
}

/// `active` < 7d · `warm` < 30d · `cold` < 180d · `parked` beyond (thresholds configurable).
pub open spec fn activity_for(days: int, t: Thresholds) -> Activity {
    if days < t.active_days {
        Activity::Active
    } else if days < t.warm_days {
        Activity::Warm
    } else if days < t.cold_days {
        Activity::Cold
    } else {
        Activity::Parked
    }
}

/// The activity state of a project last touched at `last_touched`, seen at `now`.
pub fn activity_at(now: i64, last_touched: i64, t: &Thresholds) -> (r: Activity)
    ensures
        r == activity_for(days_since(now as int, last_touched as int), *t),
{
    let diff: i128 = now as i128 - last_touched as i128;
    let days: i128 = if diff > 0 {
        diff / 86400
    } else {
        0
    };
    if days < t.active_days as i128 {
        Activity::Active
    } else if days < t.warm_days as i128 {
        Activity::Warm
    } else if days < t.cold_days as i128 {
        Activity::Cold
    } else {
        Activity::Parked
    }
}

/// `SystemTime::now()` measured from the Unix epoch, in whole seconds, or
/// `None` when the clock reads before the epoch. The clock is outside the
/// program: nothing is promised about the value.
#[verifier::external_body]
fn epoch_secs() -> (r: Option<u64>) {
    std::time::SystemTime::now().duration_since(std::time::UNIX_EPOCH).ok().map(|d| d.as_secs())
}

/// Unix seconds of a clock reading: a clock before the epoch reads as 0.
pub open spec fn clock_seconds(secs: Option<u64>) -> i64 {
    match secs {
        Some(s) => s as i64,
        None => 0,
    }
}

/// The current Unix time, in seconds (0 when the clock reads before the epoch).
pub fn now_unix() -> (r: i64)
    ensures
        exists|secs: Option<u64>| r == clock_seconds(secs),
{
    let secs = epoch_secs();
    let r: i64 = match secs {
        Some(s) => s as i64,
        None => 0,
    };
    assert(r == clock_seconds(secs));
    r
}

/// Activity derived from last-touched time against the current clock.
pub fn derive_activity(last_touched: i64, cfg: &Config) -> (r: Activity)
    ensures
        exists|now: i64| r == activity_for(days_since(now as int, last_touched as int), cfg.thresholds),
        r != Activity::Archived,
{
    let now = now_unix();
    activity_at(now, last_touched, &cfg.thresholds)
}

/// A derived activity is never `Archived`: that state comes only from an override.
pub proof fn law_derived_activity_never_archived(days: int, t: Thresholds)
    ensures
        activity_for(days, t) != Activity::Archived,
{
}

/// Activity only cools with age: more days never give a warmer state.
pub proof fn law_activity_monotone(d1: int, d2: int, t: Thresholds)
    requires
        d1 <= d2,
    ensures
        rank(activity_for(d1, t)) <= rank(activity_for(d2, t)),
{
}

/// Position on the active → parked scale.
pub open spec fn rank(a: Activity) -> int {
    match a {
        Activity::Active => 0,
        Activity::Warm => 1,
        Activity::Cold => 2,
        Activity::Parked => 3,
        Activity::Archived => 4,
    }
}

// ---------------------------------------------------------------------
// Health
// ---------------------------------------------------------------------

/// `no_git` · `no_remote` · `never_committed` · `dirty_pile` (≥ threshold), in that order.
pub open spec fn health_spec(git: Option<GitInfoView>, dirty_pile: u32) -> Seq<HealthFlag> {
    match git {
        None => seq![HealthFlag::NoGit],
        Some(g) => (if g.remote is None {
            seq![HealthFlag::NoRemote]
        } else {
            Seq::empty()
        }) + (if g.commit_count == Some(0u32) {
            seq![HealthFlag::NeverCommitted]
        } else {
            Seq::empty()
        }) + (match g.dirty_files {
            Some(d) => if d >= dirty_pile {
                seq![HealthFlag::DirtyPile { count: d }]
            } else {
                Seq::empty()
            },
            None => Seq::empty(),
        }),
    }
}

pub fn health_flags(git: &Option<GitInfo>, dirty_pile: u32) -> (r: Vec<HealthFlag>)
    ensures
        r@ == health_spec(opt_git_view(*git), dirty_pile),
{
    let mut health: Vec<HealthFlag> = Vec::new();
    match git {
        None => {
            health.push(HealthFlag::NoGit);
        },
        Some(g) => {
            if g.remote.is_none() {
                health.push(HealthFlag::NoRemote);
            }
            if g.commit_count == Some(0u32) {
                health.push(HealthFlag::NeverCommitted);
            }
            match g.dirty_files {
                Some(dirty) => {
                    if dirty >= dirty_pile {
                        health.push(HealthFlag::DirtyPile { count: dirty });
                    }
                },
                None => {},
            }
        },
    }
    assert(health@ =~= health_spec(opt_git_view(*git), dirty_pile));
    health
}

// ---------------------------------------------------------------------
// The commit window
// ---------------------------------------------------------------------

/// The first `n` elements (all of them when there are fewer).
pub open spec fn take_first<A>(s: Seq<A>, n: int) -> Seq<A> {
    if s.len() <= n {
        s
    } else {
        s.subrange(0, n)
    }
}

/// Abbreviated id: the first eight characters.
pub open spec fn short_id(id: Seq<char>) -> Seq<char> {
    take_first(id, 8)
}

/// Walk entries with a readable time at or after `cutoff`, in walk order.
pub open spec fn in_window(walk: Seq<RawCommit>, cutoff: int) -> Seq<CommitSummaryView>
    decreases walk.len(),
{
    if walk.len() == 0 {
        Seq::empty()
    } else {
        let rest = in_window(walk.drop_last(), cutoff);
        let c = walk.last();
        match c.time_unix {
            Some(t) => if t >= cutoff {
                rest.push(CommitSummaryView { id: short_id(c.id@), summary: c.summary@, time_unix: t })
            } else {
                rest
            },
            None => rest,
        }
    }
}

/// Start of the timeline window.
pub open spec fn cutoff_of(now: int, days: u32) -> int {
    now - days * 86400
}

/// Commits within the window, newest first, capped per project.
pub open spec fn recent_spec(walk: Seq<RawCommit>, now: int, tl: TimelineConfig) -> Seq<
    CommitSummaryView,
> {
    take_first(sort_desc(in_window(walk, cutoff_of(now, tl.days)), by_time()), tl.max_per_project as int)
}

pub open spec fn git_info_spec(raw: RawGit, tl: TimelineConfig, now: int) -> GitInfoView {
    GitInfoView {
        branch: opt_str_view(raw.branch),
        last_commit_unix: match raw.history {
            Some(h) => h.head_time,
            None => None,
        },
        dirty_files: raw.dirty_files,
        commit_count: Some(
            match raw.history {
                Some(h) => h.walk@.len() as u32,
                None => 0u32,
            },
        ),
        remote: opt_str_view(raw.remote),
        recent_commits: match raw.history {
            Some(h) => recent_spec(h.walk@, now, tl),
            None => Seq::empty(),
        },
    }
}

fn short_id_exec(id: &str) -> (r: String)
    ensures
        r@ == short_id(id@),
{
    let c = chars_of(id);
    if c.len() <= 8 {
        string_of(&c)
    } else {
        string_of(&slice_chars(&c, 0, 8))
    }
}

/// The window of a walk: readable times at or after `cutoff`, walk order.
pub(crate) fn window(walk: &Vec<RawCommit>, cutoff: i128) -> (r: Vec<CommitSummary>)
    ensures
        commits_view(r@) == in_window(walk@, cutoff as int),
{
    let mut r: Vec<CommitSummary> = Vec::new();
    let mut i: usize = 0;
    while i < walk.len()
        invariant
            i <= walk@.len(),
            commits_view(r@) == in_window(walk@.subrange(0, i as int), cutoff as int),
        decreases walk.len() - i,
    {
        let ghost pre = commits_view(r@);
        let c = &walk[i];
        assert(walk@.subrange(0, i + 1).drop_last() =~= walk@.subrange(0, i as int));
        match c.time_unix {
            Some(t) => {
                if t as i128 >= cutoff {
                    r.push(
                        CommitSummary {
                            id: short_id_exec(c.id.as_str()),
                            summary: copy_string(&c.summary),
                            time_unix: t,
                        },
                    );
                    assert(commits_view(r@) =~= pre.push(
                        CommitSummaryView { id: short_id(c.id@), summary: c.summary@, time_unix: t },
                    ));
                }
            },
            None => {},
        }
        i += 1;
    }
    assert(walk@.subrange(0, walk@.len() as int) =~= walk@);
    r
}

/// Repository facts of a project: branch, head time, count, remote, dirty
/// count, and the "where was I" window (newest first, capped).
pub fn git_info(raw: &RawGit, tl: &TimelineConfig, now: i64) -> (r: GitInfo)
    requires
        match raw.history {
            Some(h) => h.walk@.len() <= u32::MAX,
            None => true,
        },
    ensures
        r@ == git_info_spec(*raw, *tl, now as int),
{
    let (last_commit_unix, commit_count, recent_commits) = match &raw.history {
        Some(h) => {
            let cutoff: i128 = now as i128 - (tl.days as i128) * 86400;
            let w = window(&h.walk, cutoff);
            let mut recent = sort_commits_desc(w);
            let cap = tl.max_per_project as usize;
            let ghost sorted = commits_view(recent@);
            if recent.len() > cap {
                recent.truncate(cap);
                assert(commits_view(recent@) =~= sorted.subrange(0, cap as int));
            }
            (h.head_time, Some(h.walk.len() as u32), recent)
        },
        None => (None, Some(0u32), Vec::new()),
    };
    let r = GitInfo {
        branch: copy_opt_string(&raw.branch),
        last_commit_unix,
        dirty_files: raw.dirty_files,
        commit_count,
        remote: copy_opt_string(&raw.remote),
        recent_commits,
    };
    assert(commits_view(r.recent_commits@) =~= git_info_spec(*raw, *tl, now as int).recent_commits);
    r
}

/// The window law: every recent commit lies inside the window, they come
/// newest first, and there are at most `max_per_project` of them.
pub proof fn law_recent_window(walk: Seq<RawCommit>, now: int, tl: TimelineConfig)
    ensures
        recent_spec(walk, now, tl).len() <= tl.max_per_project,
        is_desc(recent_spec(walk, now, tl), by_time()),
        forall|i: int|
            0 <= i < recent_spec(walk, now, tl).len() ==> recent_spec(walk, now, tl)[i].time_unix
                >= cutoff_of(now, tl.days),
{
    broadcast use vstd::seq_lib::group_to_multiset_ensures;

    let w = in_window(walk, cutoff_of(now, tl.days));
    let s = sort_desc(w, by_time());
    lemma_sort_desc(w, by_time());
    lemma_in_window_after(walk, cutoff_of(now, tl.days));
    let r = recent_spec(walk, now, tl);
    assert forall|i: int| 0 <= i < r.len() implies r[i].time_unix >= cutoff_of(now, tl.days) by {
        assert(r[i] == s[i]);
        assert(s.to_multiset().count(s[i]) > 0);
        assert(w.to_multiset().count(s[i]) > 0);
        assert(w.contains(s[i]));
    }
    assert forall|i: int, j: int| 0 <= i <= j < r.len() implies by_time()(r[j]) <= by_time()(r[i]) by {
        assert(r[i] == s[i]);
        assert(r[j] == s[j]);
    }
}

proof fn lemma_in_window_after(walk: Seq<RawCommit>, cutoff: int)
    ensures
        forall|i: int|
            0 <= i < in_window(walk, cutoff).len() ==> in_window(walk, cutoff)[i].time_unix >= cutoff,
    decreases walk.len(),
{
    broadcast use vstd::seq_lib::group_to_multiset_ensures;

    if walk.len() > 0 {
        let rest = in_window(walk.drop_last(), cutoff);
        lemma_in_window_after(walk.drop_last(), cutoff);
        let w = in_window(walk, cutoff);
        assert forall|i: int| 0 <= i < w.len() implies w[i].time_unix >= cutoff by {
            if i < rest.len() {
                assert(w[i] == rest[i]);
            }
        }
    }
}

// ---------------------------------------------------------------------
// Languages
// ---------------------------------------------------------------------

/// Manifest-based detection: every manifest counts at the root and one
/// level down.
pub open spec fn languages_spec(m: Manifests) -> Seq<Seq<char>> {
    (if m.cargo || m.cargo_nested {
        seq!["rust"@]
    } else {
        Seq::empty()
    }) + (if has_node(m) {
        seq!["node"@]
    } else {
        Seq::empty()
    }) + (if has_python(m) {
        seq!["python"@]
    } else {
        Seq::empty()
    }) + (if m.godot || m.godot_nested {
        seq!["godot"@]
    } else {
        Seq::empty()
    })
}

pub fn detect_languages(m: &Manifests) -> (r: Vec<String>)
    ensures
        strings_view(r@) == languages_spec(*m),
{
    let mut langs: Vec<String> = Vec::new();
    if m.cargo || m.cargo_nested {
        langs.push(String::from_str("rust"));
    }
    if m.package_json || m.package_json_nested {
        langs.push(String::from_str("node"));
    }
    if m.pyproject || m.pyproject_nested || m.requirements || m.requirements_nested || m.setup_py
        || m.setup_py_nested {
        langs.push(String::from_str("python"));
    }
    if m.godot || m.godot_nested {
        langs.push(String::from_str("godot"));
    }
    assert(strings_view(langs@) =~= languages_spec(*m));
    langs
}

// ---------------------------------------------------------------------
// README tagline
// ---------------------------------------------------------------------

/// What replacing every match of `<[^>]*>` with nothing leaves: from the
/// first `<`, if a `>` follows it, the span up to that `>` goes.
pub open spec fn strip_tags(s: Seq<char>) -> Seq<char>
    decreases s.len(),
{
    let i = find_char(s, '<');
    proof {
        lemma_find_char(s, '<');
    }
    if i == s.len() {
        s
    } else {
        let rest = s.subrange(i + 1, s.len() as int);
        let j = find_char(rest, '>');
        proof {
            lemma_find_char(rest, '>');
        }
        if j == rest.len() {
            s
        } else {
            s.subrange(0, i) + strip_tags(rest.subrange(j + 1, rest.len() as int))
        }
    }
}

/// `regex::Regex::new(r"<[^>]*>")` then `replace_all(s, "")`: removes every
/// leftmost-first match of a `<`, any run of non-`>` characters, and a `>`.
#[verifier::external_body]
fn strip_html_tags(s: &str) -> (r: String)
    ensures
        r@ == strip_tags(s@),
{
    match regex::Regex::new(r"<[^>]*>") {
        Ok(re) => re.replace_all(s, "").into_owned(),
        Err(_) => s.to_string(),
    }
}

/// Taglines sometimes sit inside raw-HTML blocks: strip stray tags, then
/// markdown emphasis and spaces at the ends.
pub open spec fn clean_md_spec(s: Seq<char>) -> Seq<char> {
    trim(Trim::Emphasis, strip_tags(s))
}

pub fn clean_md(s: &str) -> (r: String)
    ensures
        r@ == clean_md_spec(s@),
{
    let stripped = strip_html_tags(s);
    let c = chars_of(stripped.as_str());
    string_of(&trim_chars(Trim::Emphasis, &c))
}

/// Lines starting with these never make a fallback tagline.
pub open spec fn is_markup_start(c: char) -> bool {
    c == '#' || c == '<' || c == '!' || c == '[' || c == '>' || c == '-' || c == '|'
}

pub open spec fn fallback_candidate(line: Seq<char>) -> bool {
    line.len() > 0 && !is_markup_start(line[0]) && !starts_with(line, "```"@)
}

/// First `###` heading wins; otherwise the first plain paragraph line.
pub open spec fn tagline_from(ls: Seq<Seq<char>>, fallback: Option<Seq<char>>) -> Option<Seq<char>>
    decreases ls.len(),
{
    if ls.len() == 0 {
        fallback
    } else {
        let line = trim(Trim::Whitespace, ls[0]);
        if starts_with(line, "### "@) {
            Some(clean_md_spec(line.subrange(4, line.len() as int)))
        } else {
            tagline_from(
                ls.drop_first(),
                if fallback is None && fallback_candidate(line) {
                    Some(clean_md_spec(line))
                } else {
                    fallback
                },
            )
        }
    }
}

/// The tagline of a README: looked for in its first 40 lines.
pub open spec fn readme_tagline_spec(raw: Seq<char>) -> Option<Seq<char>> {
    tagline_from(take_first(lines(raw), 40), None)
}

/// First `###` heading (house-style taglines) or first plain paragraph line.
pub fn readme_tagline(raw: &str) -> (r: Option<String>)
    ensures
        opt_str_view(r) == readme_tagline_spec(raw@),
{
    let cs = chars_of(raw);
    let all = split_lines(&cs);
    let n = if all.len() < 40 {
        all.len()
    } else {
        40
    };
    let ghost ls = take_first(all.deep_view(), 40);
    assert(ls.len() == n);
    let heading = chars_of("### ");
    let fence = chars_of("```");
    proof {
        reveal_strlit("### ");
    }
    let mut fallback: Option<String> = None;
    let mut i: usize = 0;
    assert(ls.subrange(0, n as int) =~= ls);
    while i < n
        invariant
            heading@.len() == 4,
            ls == take_first(lines(raw@), 40),
            n <= all@.len(),
            ls == take_first(all.deep_view(), 40),
            ls.len() == n,
            i <= n,
            heading@ == "### "@,
            fence@ == "```"@,
            tagline_from(ls, None) == tagline_from(ls.subrange(i as int, n as int), opt_str_view(fallback)),
        decreases n - i,
    {
        let ghost rest = ls.subrange(i as int, n as int);
        proof {
            crate::text::lemma_char_vec_deep(all@[i as int]);
        }
        assert(rest[0] == all@[i as int]@);
        assert(rest.drop_first() =~= ls.subrange(i + 1, n as int));
        let line = trim_chars(Trim::Whitespace, &all[i]);
        if starts_with_chars(&line, &heading) {
            let tail = string_of(&slice_chars(&line, 4, line.len()));
            assert(trim(Trim::Whitespace, rest[0]) == line@);
            assert(starts_with(line@, "### "@));
            assert(tagline_from(rest, opt_str_view(fallback)) == Some(
                clean_md_spec(line@.subrange(4, line@.len() as int)),
            ));
            return Some(clean_md(tail.as_str()));
        }
        let is_candidate = line.len() > 0 && !(line[0] == '#' || line[0] == '<' || line[0] == '!'
            || line[0] == '[' || line[0] == '>' || line[0] == '-' || line[0] == '|')
            && !starts_with_chars(&line, &fence);
        if fallback.is_none() && is_candidate {
            let s = string_of(&line);
            fallback = Some(clean_md(s.as_str()));
        }
        i += 1;
    }
    assert(ls.subrange(n as int, n as int) =~= Seq::<Seq<char>>::empty());
    fallback
}

// ---------------------------------------------------------------------
// Projects
// ---------------------------------------------------------------------

/// `max(last commit, dir mtime)`, or the dir mtime when there is no commit time.
pub open spec fn last_touched_spec(git: Option<GitInfoView>, dir_mtime: i64) -> i64 {
    match git {
        Some(g) => match g.last_commit_unix {
            Some(c) => if c > dir_mtime {
                c
            } else {
                dir_mtime
            },
            None => dir_mtime,
        },
        None => dir_mtime,
    }
}

pub open spec fn project_git_spec(probe: ProjectProbe, cfg: Config, now: int) -> Option<GitInfoView> {
    match probe.git {
        Some(raw) => Some(git_info_spec(raw, cfg.timeline, now)),
        None => None,
    }
}

/// The project a probe describes, seen at `now`.
pub open spec fn project_spec(probe: ProjectProbe, name: Seq<char>, cfg: Config, now: int) -> ProjectView {
    let git = project_git_spec(probe, cfg, now);
    let last = last_touched_spec(git, probe.dir_mtime);
    let ovr = find_override(cfg.overrides@, name);
    ProjectView {
        name,
        path: probe.path@,
        languages: languages_spec(probe.manifests),
        activity: match ovr {
            Some(o) => match o.status {
                Some(s) => s,
                None => activity_for(days_since(now, last as int), cfg.thresholds),
            },
            None => activity_for(days_since(now, last as int), cfg.thresholds),
        },
        git,
        tagline: match ovr {
            Some(o) => match o.tagline {
                Some(t) => Some(t@),
                None => match probe.readme {
                    Some(r) => readme_tagline_spec(r@),
                    None => None,
                },
            },
            None => match probe.readme {
                Some(r) => readme_tagline_spec(r@),
                None => None,
            },
        },
        tags: match ovr {
            Some(o) => strings_view(o.tags@),
            None => Seq::empty(),
        },
        health: health_spec(git, cfg.thresholds.dirty_pile),
        last_touched_unix: last,
        has_readme: probe.has_readme,
        has_claude_md: probe.has_claude_md,
    }
}

/// Builds the project a probe describes, at the given time.
pub fn build_project(probe: ProjectProbe, name: String, cfg: &Config, now: i64) -> (r: Project)
    requires
        probe_fits(probe),
    ensures
        r@ == project_spec(probe, name@, *cfg, now as int),
{
    let ghost p0 = probe;
    let git = match &probe.git {
        Some(raw) => Some(git_info(raw, &cfg.timeline, now)),
        None => None,
    };
    assert(opt_git_view(git) == project_git_spec(p0, *cfg, now as int));
    let dir_mtime = probe.dir_mtime;
    let last_touched_unix = match &git {
        Some(g) => match g.last_commit_unix {
            Some(c) => if c > dir_mtime {
                c
            } else {
                dir_mtime
            },
            None => dir_mtime,
        },
        None => dir_mtime,
    };
    let ovr = cfg.override_for(name.as_str());
    proof {
        match ovr {
            Some(k) => lemma_find_override(cfg.overrides@, name@, k as int),
            None => lemma_no_override(cfg.overrides@, name@),
        }
    }
    let derived = activity_at(now, last_touched_unix, &cfg.thresholds);
    let activity = match ovr {
        Some(k) => match cfg.overrides[k].1.status {
            Some(s) => s,
            None => derived,
        },
        None => derived,
    };
    let readme_line = match &probe.readme {
        Some(r) => readme_tagline(r.as_str()),
        None => None,
    };
    let tagline = match ovr {
        Some(k) => match &cfg.overrides[k].1.tagline {
            Some(t) => Some(copy_string(t)),
            None => readme_line,
        },
        None => readme_line,
    };
    let tags = match ovr {
        Some(k) => copy_strings(&cfg.overrides[k].1.tags),
        None => Vec::new(),
    };
    proof {
        if ovr is None {
            assert(strings_view(tags@) =~= Seq::<Seq<char>>::empty());
        }
    }
    let health = health_flags(&git, cfg.thresholds.dirty_pile);
    let languages = detect_languages(&probe.manifests);
    Project {
        name,
        path: probe.path,
        languages,
        activity,
        git,
        tagline,
        tags,
        health,
        last_touched_unix,
        has_readme: probe.has_readme,
        has_claude_md: probe.has_claude_md,
    }
}

/// Scan one project directory — the watcher's per-change unit of work —
/// against the current clock.
pub fn scan_project(probe: ProjectProbe, name: String, cfg: &Config) -> (r: Project)
    requires
        probe_fits(probe),
    ensures
        exists|now: i64| r@ == project_spec(probe, name@, *cfg, now as int),
{
    let now = now_unix();
    build_project(probe, name, cfg, now)
}

/// The projects of a root listing: ignored names dropped, each built at `now`, in listing order.
pub open spec fn scanned(entries: Seq<(String, ProjectProbe)>, cfg: Config, now: int) -> Seq<ProjectView>
    decreases entries.len(),
{
    if entries.len() == 0 {
        Seq::empty()
    } else {
        let rest = scanned(entries.drop_last(), cfg, now);
        let e = entries.last();
        if ignored(e.0@, cfg) {
            rest
        } else {
            rest.push(project_spec(e.1, e.0@, cfg, now))
        }
    }
}

pub open spec fn entries_fit(entries: Seq<(String, ProjectProbe)>) -> bool {
    forall|i: int| 0 <= i < entries.len() ==> probe_fits(#[trigger] entries[i].1)
}

/// Every project of the listed directories at `now`, newest-touched first.
pub fn scan_all_at(cfg: &Config, entries: Vec<(String, ProjectProbe)>, now: i64) -> (r: Vec<Project>)
    requires
        entries_fit(entries@),
    ensures
        projects_view(r@) == sort_desc(scanned(entries@, *cfg, now as int), by_touched()),
{
    let ghost all = entries@;
    let mut src = entries;
    let mut built: Vec<Project> = Vec::new();
    let n = src.len();
    let mut k: usize = 0;
    while k < n
        invariant
            all.len() == n,
            src@.len() == n - k,
            k <= n,
            entries_fit(all),
            forall|q: int| 0 <= q < n - k ==> #[trigger] src@[q] == all[k + q],
            projects_view(built@) == scanned(all.subrange(0, k as int), *cfg, now as int),
        decreases n - k,
    {
        let (name, probe) = src.remove(0);
        assert((name, probe) == all[k as int]);
        let ghost pre = projects_view(built@);
        assert(all.subrange(0, k + 1).drop_last() =~= all.subrange(0, k as int));
        if !is_ignored(name.as_str(), cfg) {
            assert(probe_fits(all[k as int].1));
            let ghost nm = name@;
            let ghost pr = probe;
            let p = build_project(probe, name, cfg, now);
            built.push(p);
            assert(projects_view(built@) =~= pre.push(project_spec(pr, nm, *cfg, now as int)));
        }
        assert forall|q: int| 0 <= q < n - (k + 1) implies #[trigger] src@[q] == all[(k + 1) + q] by {
            assert(src@[q] == all[k + (q + 1)]);
        }
        k += 1;
    }
    assert(all.subrange(0, n as int) =~= all);
    sort_projects_desc(built)
}

/// Scan every listed project directory, newest-touched first.
pub fn scan_all(cfg: &Config, entries: Vec<(String, ProjectProbe)>) -> (r: Vec<Project>)
    requires
        entries_fit(entries@),
    ensures
        exists|now: i64|
            projects_view(r@) == sort_desc(scanned(entries@, *cfg, now as int), by_touched()),
{
    let now = now_unix();
    scan_all_at(cfg, entries, now)
}

/// Scanning never reorders by anything but recency: the result is ordered
/// newest-touched first and holds exactly the scanned projects.
pub proof fn law_scan_newest_first(entries: Seq<(String, ProjectProbe)>, cfg: Config, now: int)
    ensures
        is_desc(sort_desc(scanned(entries, cfg, now), by_touched()), by_touched()),
        sort_desc(scanned(entries, cfg, now), by_touched()).to_multiset() == scanned(
            entries,
            cfg,
            now,
        ).to_multiset(),
{
    lemma_sort_desc(scanned(entries, cfg, now), by_touched());
}

/// A project was last touched at the later of its directory's modification
/// time and its last commit: never earlier than either, and one of them.
pub proof fn law_last_touched_is_the_later(probe: ProjectProbe, name: Seq<char>, cfg: Config, now: int)
    ensures
        project_spec(probe, name, cfg, now).last_touched_unix >= probe.dir_mtime,
        project_spec(probe, name, cfg, now).last_touched_unix == probe.dir_mtime || (exists|c: i64|
            head_commit_time(probe) == Some(c) && project_spec(probe, name, cfg, now).last_touched_unix == c),
        forall|c: i64| head_commit_time(probe) == Some(c) ==> project_spec(probe, name, cfg, now).last_touched_unix >= c,
{
    match head_commit_time(probe) {
        Some(c) => {
            assert(project_spec(probe, name, cfg, now).last_touched_unix == c || project_spec(probe, name, cfg, now).last_touched_unix == probe.dir_mtime);
        },
        None => {},
    }
}

/// The time of the HEAD commit the probe read, if any.
pub open spec fn head_commit_time(probe: ProjectProbe) -> Option<i64> {
    match probe.git {
        Some(raw) => match raw.history {
            Some(h) => h.head_time,
            None => None,
        },
        None => None,
    }
}

/// Overrides decide ignoring only through their `ignore` flag: for a name
/// that is not hidden and not in the ignore list, an override with
/// `ignore = false` (a tagline, tags or a status only) leaves the project in
/// the scan, one with `ignore = true` drops it, and no override keeps it.
pub proof fn law_only_ignore_overrides_hide(name: Seq<char>, cfg: Config, i: int)
    requires
        name.len() == 0 || name[0] != '.',
        forall|j: int| 0 <= j < cfg.ignore@.len() ==> cfg.ignore@[j]@ != name,
        crate::config::keys_unique(cfg.overrides@),
    ensures
        0 <= i < cfg.overrides@.len() && cfg.overrides@[i].0@ == name ==> (ignored(name, cfg)
            <==> cfg.overrides@[i].1.ignore),
        (forall|j: int| 0 <= j < cfg.overrides@.len() ==> cfg.overrides@[j].0@ != name) ==> !ignored(name, cfg),
{
    if 0 <= i < cfg.overrides@.len() && cfg.overrides@[i].0@ == name {
        crate::config::law_keyed_overrides(cfg.overrides@, name, i);
    }
    if forall|j: int| 0 <= j < cfg.overrides@.len() ==> cfg.overrides@[j].0@ != name {
        crate::config::lemma_no_override(cfg.overrides@, name);
    }
}

/// The names of projects, in order.
pub open spec fn project_names(ps: Seq<ProjectView>) -> Seq<Seq<char>> {
    ps.map_values(|p: ProjectView| p.name)
}

proof fn lemma_ignored_one_more(name: Seq<char>, cfg: Config, cfg2: Config, n: Seq<char>)
    requires
        strings_view(cfg2.ignore@) == strings_view(cfg.ignore@).push(n),
        cfg2.overrides@ == cfg.overrides@,
    ensures
        ignored(name, cfg2) <==> (ignored(name, cfg) || name == n),
{
    let k = cfg.ignore@.len() as int;
    assert(strings_view(cfg2.ignore@).len() == k + 1);
    assert(cfg2.ignore@.len() == k + 1);
    assert(strings_view(cfg2.ignore@)[k] == n);
    assert(strings_view(cfg2.ignore@)[k] == cfg2.ignore@[k]@);
    assert(cfg2.ignore@[k]@ == n);
    if exists|i: int| 0 <= i < cfg.ignore@.len() && #[trigger] cfg.ignore@[i]@ == name {
        let i = choose|i: int| 0 <= i < cfg.ignore@.len() && #[trigger] cfg.ignore@[i]@ == name;
        assert(cfg2.ignore@.len() == k + 1);
        assert(strings_view(cfg2.ignore@)[i] == strings_view(cfg.ignore@)[i]);
        assert(strings_view(cfg2.ignore@)[i] == cfg2.ignore@[i]@);
        assert(strings_view(cfg.ignore@)[i] == cfg.ignore@[i]@);
        assert(cfg2.ignore@[i]@ == name);
    }
    if exists|i: int| 0 <= i < cfg2.ignore@.len() && #[trigger] cfg2.ignore@[i]@ == name {
        let i = choose|i: int| 0 <= i < cfg2.ignore@.len() && #[trigger] cfg2.ignore@[i]@ == name;
        if i < k {
            assert(strings_view(cfg2.ignore@)[i] == strings_view(cfg.ignore@)[i]);
            assert(strings_view(cfg2.ignore@)[i] == cfg2.ignore@[i]@);
            assert(strings_view(cfg.ignore@)[i] == cfg.ignore@[i]@);
            assert(cfg.ignore@[i]@ == name);
        }
    }
}

proof fn lemma_scanned_one_more_ignored(
    entries: Seq<(String, ProjectProbe)>,
    cfg: Config,
    cfg2: Config,
    n: Seq<char>,
    now1: int,
    now2: int,
)
    requires
        strings_view(cfg2.ignore@) == strings_view(cfg.ignore@).push(n),
        cfg2.overrides@ == cfg.overrides@,
    ensures
        forall|x: Seq<char>|
            #[trigger] project_names(scanned(entries, cfg2, now2)).to_multiset().count(x) == if x == n {
                0
            } else {
                project_names(scanned(entries, cfg, now1)).to_multiset().count(x)
            },
    decreases entries.len(),
{
    broadcast use vstd::seq_lib::group_to_multiset_ensures;

    if entries.len() > 0 {
        let init = entries.drop_last();
        let e = entries.last();
        lemma_scanned_one_more_ignored(init, cfg, cfg2, n, now1, now2);
        lemma_ignored_one_more(e.0@, cfg, cfg2, n);
        let r1 = scanned(init, cfg, now1);
        let r2 = scanned(init, cfg2, now2);
        if !ignored(e.0@, cfg) {
            assert(project_names(scanned(entries, cfg, now1)) =~= project_names(r1).push(e.0@));
        } else {
            assert(project_names(scanned(entries, cfg, now1)) =~= project_names(r1));
        }
        if !ignored(e.0@, cfg2) {
            assert(project_names(scanned(entries, cfg2, now2)) =~= project_names(r2).push(e.0@));
        } else {
            assert(project_names(scanned(entries, cfg2, now2)) =~= project_names(r2));
        }
    } else {
        assert(project_names(scanned(entries, cfg2, now2)) =~= Seq::<Seq<char>>::empty());
        assert(project_names(scanned(entries, cfg, now1)) =~= Seq::<Seq<char>>::empty());
    }
}

/// Two sequences holding the same items hold the same images.
proof fn lemma_map_same_multiset<A, B>(s: Seq<A>, t: Seq<A>, f: spec_fn(A) -> B)
    requires
        s.to_multiset() == t.to_multiset(),
    ensures
        s.map_values(f).to_multiset() == t.map_values(f).to_multiset(),
    decreases s.len(),
{
    broadcast use vstd::seq_lib::group_to_multiset_ensures;

    if s.len() == 0 {
        assert(s.to_multiset().len() == s.len());
        assert(t.to_multiset().len() == t.len());
        assert(t.len() == 0);
        assert(s.map_values(f) =~= Seq::<B>::empty());
        assert(t.map_values(f) =~= Seq::<B>::empty());
    } else {
        let a = s.last();
        assert(s.to_multiset().count(a) > 0) by {
            assert(s.drop_last().push(a) =~= s);
        }
        assert(t.contains(a));
        let j = choose|j: int| 0 <= j < t.len() && t[j] == a;
        let t2 = t.remove(j);
        vstd::seq_lib::to_multiset_remove(t, j);
        assert(s.drop_last().push(a) =~= s);
        assert(s.drop_last().to_multiset() =~= t2.to_multiset());
        lemma_map_same_multiset(s.drop_last(), t2, f);
        assert(s.map_values(f) =~= s.drop_last().map_values(f).push(f(a)));
        assert(t.map_values(f).remove(j) =~= t2.map_values(f));
        vstd::seq_lib::to_multiset_remove(t.map_values(f), j);
        assert(t.map_values(f)[j] == f(a));
        assert(t.map_values(f).to_multiset().count(f(a)) > 0) by {
            assert(t.map_values(f).contains(f(a)));
        }
        assert(t.map_values(f).to_multiset() =~= t2.map_values(f).to_multiset().insert(f(a)));
    }
}

/// Adding a name to the ignore list removes exactly the projects of that
/// name from a scan and changes nothing else about which projects come
/// back: counted by name, the scan with the longer list holds none named
/// `n` and as many of every other name as before, whenever each scan ran.
pub proof fn law_ignoring_a_name_removes_exactly_it(
    entries: Seq<(String, ProjectProbe)>,
    cfg: Config,
    cfg2: Config,
    n: Seq<char>,
    now1: int,
    now2: int,
)
    requires
        strings_view(cfg2.ignore@) == strings_view(cfg.ignore@).push(n),
        cfg2.overrides@ == cfg.overrides@,
    ensures
        forall|x: Seq<char>|
            #[trigger] project_names(sort_desc(scanned(entries, cfg2, now2), by_touched())).to_multiset().count(x)
                == if x == n {
                0
            } else {
                project_names(sort_desc(scanned(entries, cfg, now1), by_touched())).to_multiset().count(x)
            },
{
    lemma_sort_desc(scanned(entries, cfg, now1), by_touched());
    lemma_sort_desc(scanned(entries, cfg2, now2), by_touched());
    lemma_map_same_multiset(
        sort_desc(scanned(entries, cfg, now1), by_touched()),
        scanned(entries, cfg, now1),
        |p: ProjectView| p.name,
    );
    lemma_map_same_multiset(
        sort_desc(scanned(entries, cfg2, now2), by_touched()),
        scanned(entries, cfg2, now2),
        |p: ProjectView| p.name,
    );
    lemma_scanned_one_more_ignored(entries, cfg, cfg2, n, now1, now2);
    assert forall|x: Seq<char>|
        #[trigger] project_names(sort_desc(scanned(entries, cfg2, now2), by_touched())).to_multiset().count(x)
            == if x == n {
            0
        } else {
            project_names(sort_desc(scanned(entries, cfg, now1), by_touched())).to_multiset().count(x)
        } by {
        assert(project_names(sort_desc(scanned(entries, cfg2, now2), by_touched())).to_multiset().count(x)
            == project_names(scanned(entries, cfg2, now2)).to_multiset().count(x));
        assert(project_names(sort_desc(scanned(entries, cfg, now1), by_touched())).to_multiset().count(x)
            == project_names(scanned(entries, cfg, now1)).to_multiset().count(x));
    }
}

/// Health flags say exactly what the git facts say.
pub proof fn law_health_flags(g: Option<GitInfoView>, pile: u32)
    ensures
        health_spec(g, pile).contains(HealthFlag::NoGit) <==> g is None,
        health_spec(g, pile).contains(HealthFlag::NoRemote) <==> (g is Some && g->0.remote is None),
        health_spec(g, pile).contains(HealthFlag::NeverCommitted) <==> (g is Some && g->0.commit_count
            == Some(0u32)),
        forall|c: u32|
            health_spec(g, pile).contains(HealthFlag::DirtyPile { count: c }) <==> (g is Some
                && g->0.dirty_files == Some(c) && c >= pile),
{
    let h = health_spec(g, pile);
    match g {
        None => {
            assert(h[0] == HealthFlag::NoGit);
        },
        Some(gv) => {
            let a: Seq<HealthFlag> = if gv.remote is None {
                seq![HealthFlag::NoRemote]
            } else {
                Seq::empty()
            };
            let b: Seq<HealthFlag> = if gv.commit_count == Some(0u32) {
                seq![HealthFlag::NeverCommitted]
            } else {
                Seq::empty()
            };
            let c: Seq<HealthFlag> = match gv.dirty_files {
                Some(d) => if d >= pile {
                    seq![HealthFlag::DirtyPile { count: d }]
                } else {
                    Seq::empty()
                },
                None => Seq::empty(),
            };
            assert(h == a + b + c);
            assert forall|f: HealthFlag| h.contains(f) <==> (a.contains(f) || b.contains(f)
                || c.contains(f)) by {
                if h.contains(f) {
                    let i = choose|i: int| 0 <= i < h.len() && h[i] == f;
                    if i < a.len() {
                        assert(a[i] == f);
                    } else if i < a.len() + b.len() {
                        assert(b[i - a.len()] == f);
                    } else {
                        assert(c[i - a.len() - b.len()] == f);
                    }
                }
                if a.contains(f) {
                    let i = choose|i: int| 0 <= i < a.len() && a[i] == f;
                    assert(h[i] == f);
                }
                if b.contains(f) {
                    let i = choose|i: int| 0 <= i < b.len() && b[i] == f;
                    assert(h[a.len() + i] == f);
                }
                if c.contains(f) {
                    let i = choose|i: int| 0 <= i < c.len() && c[i] == f;
                    assert(h[a.len() + b.len() + i] == f);
                }
            }
            if a.len() > 0 {
                assert(a[0] == HealthFlag::NoRemote);
            }
            if b.len() > 0 {
                assert(b[0] == HealthFlag::NeverCommitted);
            }
            if c.len() > 0 {
                assert(c[0] == HealthFlag::DirtyPile { count: gv.dirty_files->0 });
            }
        },
    }
}

} // verus!
