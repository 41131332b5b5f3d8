//! Wire/domain types shared by the daemon, the CLI and every frontend, with
//! their mathematical views (strings as character sequences).

use vstd::prelude::*;

verus! {

/// Derived from last-touched time (thresholds configurable); `Archived` only via override.
#[derive(Clone, Copy, PartialEq, Eq, Structural, Debug)]
pub enum Activity {
    Active,
    Warm,
    Cold,
    Parked,
    Archived,
}

/// One commit of the "where was I" window.
#[derive(Clone, Debug)]
pub struct CommitSummary {
    /// Abbreviated hex id.
    pub id: String,
    /// First line of the commit message.
    pub summary: String,
    pub time_unix: i64,
}

pub struct CommitSummaryView {
    pub id: Seq<char>,
    pub summary: Seq<char>,
    pub time_unix: i64,
}

impl View for CommitSummary {
    type V = CommitSummaryView;

    open spec fn view(&self) -> CommitSummaryView {
        CommitSummaryView { id: self.id@, summary: self.summary@, time_unix: self.time_unix }
    }
}

/// Repository facts of one project.
#[derive(Clone, Debug)]
pub struct GitInfo {
    /// Current branch, if HEAD is on one.
    pub branch: Option<String>,
    /// Unix seconds of the last commit; `None` on an unborn HEAD.
    pub last_commit_unix: Option<i64>,
    /// Uncommitted paths (staged + worktree + untracked); `None` = could not determine.
    pub dirty_files: Option<u32>,
    /// Total commits reachable from HEAD.
    pub commit_count: Option<u32>,
    /// Fetch URL of `origin`, if any.
    pub remote: Option<String>,
    /// Commits within the timeline window, newest first.
    pub recent_commits: Vec<CommitSummary>,
}

pub struct GitInfoView {
    pub branch: Option<Seq<char>>,
    pub last_commit_unix: Option<i64>,
    pub dirty_files: Option<u32>,
    pub commit_count: Option<u32>,
    pub remote: Option<Seq<char>>,
    pub recent_commits: Seq<CommitSummaryView>,
}

pub open spec fn opt_str_view(o: Option<String>) -> Option<Seq<char>> {
    match o {
        Some(s) => Some(s@),
        None => None,
    }
}

pub open spec fn commits_view(v: Seq<CommitSummary>) -> Seq<CommitSummaryView> {
    v.map_values(|c: CommitSummary| c@)
}

pub open spec fn strings_view(v: Seq<String>) -> Seq<Seq<char>> {
    v.map_values(|s: String| s@)
}

impl View for GitInfo {
    type V = GitInfoView;

    open spec fn view(&self) -> GitInfoView {
        GitInfoView {
            branch: opt_str_view(self.branch),
            last_commit_unix: self.last_commit_unix,
            dirty_files: self.dirty_files,
            commit_count: self.commit_count,
            remote: opt_str_view(self.remote),
            recent_commits: commits_view(self.recent_commits@),
        }
    }
}

/// Rot signals of one project.
#[derive(Clone, Copy, PartialEq, Eq, Structural, Debug)]
pub enum HealthFlag {
    /// Not a git repository at all.
    NoGit,
    /// A repo with no `origin` — one disk failure from gone.
    NoRemote,
    /// A repo with zero commits (possibly with dirty files piling up).
    NeverCommitted,
    /// Uncommitted files at/above the configured threshold.
    DirtyPile { count: u32 },
}

/// One project under a scan root, everything derived.
#[derive(Clone, Debug)]
pub struct Project {
    pub name: String,
    pub path: String,
    /// Manifest-detected: "rust", "node", "python", "godot".
    pub languages: Vec<String>,
    pub activity: Activity,
    /// `None` for un-git'ed folders (which is itself a health flag).
    pub git: Option<GitInfo>,
    /// From README (first `###` or first paragraph) or a config override.
    pub tagline: Option<String>,
    /// From config overrides only — never derived.
    pub tags: Vec<String>,
    pub health: Vec<HealthFlag>,
    /// Unix seconds — max(last commit, top-level dir mtime). Sort key.
    pub last_touched_unix: i64,
    pub has_readme: bool,
    pub has_claude_md: bool,
}

pub struct ProjectView {
    pub name: Seq<char>,
    pub path: Seq<char>,
    pub languages: Seq<Seq<char>>,
    pub activity: Activity,
    pub git: Option<GitInfoView>,
    pub tagline: Option<Seq<char>>,
    pub tags: Seq<Seq<char>>,
    pub health: Seq<HealthFlag>,
    pub last_touched_unix: i64,
    pub has_readme: bool,
    pub has_claude_md: bool,
}

pub open spec fn opt_git_view(g: Option<GitInfo>) -> Option<GitInfoView> {
    match g {
        Some(g) => Some(g@),
        None => None,
    }
}

impl View for Project {
    type V = ProjectView;

    open spec fn view(&self) -> ProjectView {
        ProjectView {
            name: self.name@,
            path: self.path@,
            languages: strings_view(self.languages@),
            activity: self.activity,
            git: opt_git_view(self.git),
            tagline: opt_str_view(self.tagline),
            tags: strings_view(self.tags@),
            health: self.health@,
            last_touched_unix: self.last_touched_unix,
            has_readme: self.has_readme,
            has_claude_md: self.has_claude_md,
        }
    }
}

pub open spec fn projects_view(v: Seq<Project>) -> Seq<ProjectView> {
    v.map_values(|p: Project| p@)
}

/// One markdown/text file inside a project, path relative to the project root.
#[derive(Clone, Debug)]
pub struct DocEntry {
    pub path: String,
    pub size: u64,
    pub modified_unix: i64,
}

/// A doc served for viewing: raw source plus server-rendered HTML.
#[derive(Clone, Debug)]
pub struct DocContent {
    pub project: String,
    pub path: String,
    pub raw: String,
    /// Markdown output with active content removed — safe to inject as innerHTML.
    pub html: String,
    pub modified_unix: i64,
}

/// Body of a doc write (create or update).
#[derive(Clone, Debug)]
pub struct DocWrite {
    pub content: String,
}

/// What happened to a saved doc: commit state reported honestly.
#[derive(Clone, Debug)]
pub struct DocWriteResult {
    pub saved: bool,
    pub committed: bool,
    /// Short hash when committed.
    pub commit_id: Option<String>,
    /// Why it didn't commit (not a repo, identity unset, no changes…).
    pub detail: Option<String>,
}

/// How a colony sibling is primarily reached on this machine.
#[derive(Clone, Copy, PartialEq, Eq, Structural, Debug)]
pub enum SiblingSurface {
    /// Serves a browser UI — `url` is the way in.
    WebUi,
    /// HTTP API without a UI.
    HttpApi,
    /// MCP-first — reach it by its MCP server name.
    Mcp,
    /// A CLI binary.
    Cli,
    /// A native app; nothing to connect to.
    Native,
    /// Nothing runnable on a host at all (bare metal, templates).
    NoRuntime,
}

/// One member of the colony as seen from this machine.
#[derive(Clone, Debug)]
pub struct Sibling {
    pub name: String,
    /// One-liner, from the built-in roster.
    pub tagline: String,
    pub surface: SiblingSurface,
    /// Effective loopback port (config override or roster default).
    pub port: Option<u16>,
    /// `http://127.0.0.1:<port>/` when the sibling serves a browser UI.
    pub url: Option<String>,
    /// MCP server name agents can reach it by, when it speaks MCP.
    pub mcp: Option<String>,
    /// Source checkout path under a scan root, if present.
    pub checkout: Option<String>,
    /// Installed binary path, if one was found in a known dir.
    pub binary: Option<String>,
    /// `Some(true)` = the port answered just now; `None` = no port to probe.
    pub live: Option<bool>,
    /// The sibling's lander page.
    pub lander: String,
}

pub struct SiblingView {
    pub name: Seq<char>,
    pub tagline: Seq<char>,
    pub surface: SiblingSurface,
    pub port: Option<u16>,
    pub url: Option<Seq<char>>,
    pub mcp: Option<Seq<char>>,
    pub checkout: Option<Seq<char>>,
    pub binary: Option<Seq<char>>,
    pub live: Option<bool>,
    pub lander: Seq<char>,
}

impl View for Sibling {
    type V = SiblingView;

    open spec fn view(&self) -> SiblingView {
        SiblingView {
            name: self.name@,
            tagline: self.tagline@,
            surface: self.surface,
            port: self.port,
            url: opt_str_view(self.url),
            mcp: opt_str_view(self.mcp),
            checkout: opt_str_view(self.checkout),
            binary: opt_str_view(self.binary),
            live: self.live,
            lander: self.lander@,
        }
    }
}

/// The whole colony, one probe sweep.
#[derive(Clone, Debug)]
pub struct ColonyStatus {
    pub siblings: Vec<Sibling>,
    pub checked_unix: i64,
}

/// Frames pushed over the daemon's WebSocket.
#[derive(Clone, Debug)]
pub enum Event {
    /// Full state, sent on connect and after a full rescan.
    Snapshot { projects: Vec<Project> },
    /// A single project changed on disk.
    ProjectChanged { project: Box<Project> },
    /// A project directory disappeared from the root.
    ProjectRemoved { path: String },
    /// Colony sweep result.
    Colony { colony: ColonyStatus },
}

// ---------------------------------------------------------------------
// Exact copies (derived `Clone` tells the verifier nothing)
// ---------------------------------------------------------------------

pub fn copy_string(s: &String) -> (r: String)
    ensures
        r@ == s@,
{
    s.clone()
}

pub fn copy_opt_string(o: &Option<String>) -> (r: Option<String>)
    ensures
        opt_str_view(r) == opt_str_view(*o),
{
    match o {
        Some(s) => Some(s.clone()),
        None => None,
    }
}

pub fn copy_strings(v: &Vec<String>) -> (r: Vec<String>)
    ensures
        strings_view(r@) == strings_view(v@),
{
    let mut r: Vec<String> = Vec::new();
    let mut i: usize = 0;
    while i < v.len()
        invariant
            i <= v@.len(),
            r@.len() == i,
            forall|k: int| 0 <= k < i ==> r@[k]@ == v@[k]@,
        decreases v.len() - i,
    {
        r.push(v[i].clone());
        i += 1;
    }
    assert(strings_view(r@) =~= strings_view(v@));
    r
}

pub fn copy_commit(c: &CommitSummary) -> (r: CommitSummary)
    ensures
        r@ == c@,
{
    CommitSummary { id: c.id.clone(), summary: c.summary.clone(), time_unix: c.time_unix }
}

pub fn copy_commits(v: &Vec<CommitSummary>) -> (r: Vec<CommitSummary>)
    ensures
        commits_view(r@) == commits_view(v@),
{
    let mut r: Vec<CommitSummary> = Vec::new();
    let mut i: usize = 0;
    while i < v.len()
        invariant
            i <= v@.len(),
            r@.len() == i,
            forall|k: int| 0 <= k < i ==> r@[k]@ == v@[k]@,
        decreases v.len() - i,
    {
        r.push(copy_commit(&v[i]));
        i += 1;
    }
    assert(commits_view(r@) =~= commits_view(v@));
    r
}

pub fn copy_git(g: &GitInfo) -> (r: GitInfo)
    ensures
        r@ == g@,
{
    GitInfo {
        branch: copy_opt_string(&g.branch),
        last_commit_unix: g.last_commit_unix,
        dirty_files: g.dirty_files,
        commit_count: g.commit_count,
        remote: copy_opt_string(&g.remote),
        recent_commits: copy_commits(&g.recent_commits),
    }
}

pub fn copy_flags(v: &Vec<HealthFlag>) -> (r: Vec<HealthFlag>)
    ensures
        r@ == v@,
{
    let mut r: Vec<HealthFlag> = Vec::new();
    let mut i: usize = 0;
    while i < v.len()
        invariant
            i <= v@.len(),
            r@ == v@.subrange(0, i as int),
        decreases v.len() - i,
    {
        r.push(v[i]);
        assert(r@ =~= v@.subrange(0, i + 1));
        i += 1;
    }
    assert(v@.subrange(0, v@.len() as int) =~= v@);
    r
}

pub fn copy_project(p: &Project) -> (r: Project)
    ensures
        r@ == p@,
{
    Project {
        name: p.name.clone(),
        path: p.path.clone(),
        languages: copy_strings(&p.languages),
        activity: p.activity,
        git: match &p.git {
            Some(g) => Some(copy_git(g)),
            None => None,
        },
        tagline: copy_opt_string(&p.tagline),
        tags: copy_strings(&p.tags),
        health: copy_flags(&p.health),
        last_touched_unix: p.last_touched_unix,
        has_readme: p.has_readme,
        has_claude_md: p.has_claude_md,
    }
}

pub fn copy_projects(v: &Vec<Project>) -> (r: Vec<Project>)
    ensures
        projects_view(r@) == projects_view(v@),
{
    let mut r: Vec<Project> = Vec::new();
    let mut i: usize = 0;
    while i < v.len()
        invariant
            i <= v@.len(),
            r@.len() == i,
            forall|k: int| 0 <= k < i ==> r@[k]@ == v@[k]@,
        decreases v.len() - i,
    {
        r.push(copy_project(&v[i]));
        i += 1;
    }
    assert(projects_view(r@) =~= projects_view(v@));
    r
}

// ---------------------------------------------------------------------
// Equality by view (the dashboard suppresses rescans that change nothing)
// ---------------------------------------------------------------------

pub fn string_eq(a: &String, b: &String) -> (r: bool)
    ensures
        r == (a@ == b@),
{
    *a == *b
}

pub fn opt_string_eq(a: &Option<String>, b: &Option<String>) -> (r: bool)
    ensures
        r == (opt_str_view(*a) == opt_str_view(*b)),
{
    match (a, b) {
        (Some(x), Some(y)) => *x == *y,
        (None, None) => true,
        _ => false,
    }
}

pub fn strings_eq(a: &Vec<String>, b: &Vec<String>) -> (r: bool)
    ensures
        r == (strings_view(a@) == strings_view(b@)),
{
    if a.len() != b.len() {
        assert(strings_view(a@).len() != strings_view(b@).len());
        return false;
    }
    let mut i: usize = 0;
    while i < a.len()
        invariant
            a@.len() == b@.len(),
            i <= a@.len(),
            forall|k: int| 0 <= k < i ==> a@[k]@ == b@[k]@,
        decreases a.len() - i,
    {
        if a[i] != b[i] {
            assert(strings_view(a@)[i as int] != strings_view(b@)[i as int]);
            return false;
        }
        i += 1;
    }
    assert(strings_view(a@) =~= strings_view(b@));
    true
}

pub fn commits_eq(a: &Vec<CommitSummary>, b: &Vec<CommitSummary>) -> (r: bool)
    ensures
        r == (commits_view(a@) == commits_view(b@)),
{
    if a.len() != b.len() {
        assert(commits_view(a@).len() != commits_view(b@).len());
        return false;
    }
    let mut i: usize = 0;
    while i < a.len()
        invariant
            a@.len() == b@.len(),
            i <= a@.len(),
            forall|k: int| 0 <= k < i ==> a@[k]@ == b@[k]@,
        decreases a.len() - i,
    {
        if a[i].id != b[i].id || a[i].summary != b[i].summary || a[i].time_unix
            != b[i].time_unix {
            assert(commits_view(a@)[i as int] != commits_view(b@)[i as int]);
            return false;
        }
        i += 1;
    }
    assert(commits_view(a@) =~= commits_view(b@));
    true
}

pub fn flags_eq(a: &Vec<HealthFlag>, b: &Vec<HealthFlag>) -> (r: bool)
    ensures
        r == (a@ == b@),
{
    if a.len() != b.len() {
        return false;
    }
    let mut i: usize = 0;
    while i < a.len()
        invariant
            a@.len() == b@.len(),
            i <= a@.len(),
            forall|k: int| 0 <= k < i ==> a@[k] == b@[k],
        decreases a.len() - i,
    {
        if a[i] != b[i] {
            return false;
        }
        i += 1;
    }
    assert(a@ =~= b@);
    true
}

pub fn git_eq(a: &GitInfo, b: &GitInfo) -> (r: bool)
    ensures
        r == (a@ == b@),
{
    opt_string_eq(&a.branch, &b.branch) && a.last_commit_unix == b.last_commit_unix
        && a.dirty_files == b.dirty_files && a.commit_count == b.commit_count && opt_string_eq(
        &a.remote,
        &b.remote,
    ) && commits_eq(&a.recent_commits, &b.recent_commits)
}

/// Field-by-field equality: what derived `PartialEq` compares.
pub fn project_eq(a: &Project, b: &Project) -> (r: bool)
    ensures
        r == (a@ == b@),
{
    let git_same = match (&a.git, &b.git) {
        (Some(x), Some(y)) => git_eq(x, y),
        (None, None) => true,
        _ => false,
    };
    a.name == b.name && a.path == b.path && strings_eq(&a.languages, &b.languages) && a.activity
        == b.activity && git_same && opt_string_eq(&a.tagline, &b.tagline) && strings_eq(
        &a.tags,
        &b.tags,
    ) && flags_eq(&a.health, &b.health) && a.last_touched_unix == b.last_touched_unix
        && a.has_readme == b.has_readme && a.has_claude_md == b.has_claude_md
}

} // verus!
