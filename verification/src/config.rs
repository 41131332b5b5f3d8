//! Central config: one file the dashboard owns, projects stay unpolluted.
//! Every field defaults, so a missing file means a fully working zero-config
//! setup. Parsing the TOML file is the application's job; this module holds
//! the values and the rules read from them.

use vstd::prelude::*;

use crate::protocol::{opt_str_view, strings_view, Activity};
use crate::text::{chars_of, extend_chars, slice_chars, starts_with, starts_with_chars, str_eq, string_of};

verus! {

/// Per-project overrides, keyed by directory name in `Config::overrides`.
#[derive(Clone, Debug)]
pub struct ProjectOverride {
    /// Pin an activity state regardless of the derived one (e.g. `parked`, `archived`).
    pub status: Option<Activity>,
    pub tags: Vec<String>,
    pub tagline: Option<String>,
    /// Hide from the dashboard entirely.
    pub ignore: bool,
}

#[derive(Clone, Copy, Debug)]
pub struct Thresholds {
    pub active_days: u32,
    pub warm_days: u32,
    pub cold_days: u32,
    pub dirty_pile: u32,
}

#[derive(Clone, Copy, Debug)]
pub struct TimelineConfig {
    /// How far back "where was I" looks.
    pub days: u32,
    /// Cap per project so one rebase-heavy repo can't flood the view.
    pub max_per_project: u32,
}

#[derive(Clone, Debug)]
pub struct ServerConfig {
    pub bind: String,
    pub ui_dir: String,
}

#[derive(Clone, Copy, Debug)]
pub struct Features {
    /// The semantic cortex layer: off by default.
    pub cerebro: bool,
}

/// The colony panel: enabled flag, sweep interval and port overrides
/// (ports only — the host is always loopback).
#[derive(Clone, Debug)]
pub struct ColonyConfig {
    pub enabled: bool,
    pub probe_secs: u64,
    /// Sibling name → loopback port.
    pub ports: Vec<(String, u16)>,
}

/// How to reach the optional cortex memory server over MCP stdio.
#[derive(Clone, Debug)]
pub struct CortexConfig {
    /// Binary to spawn; empty = not configured.
    pub command: String,
    pub args: Vec<String>,
    pub env: Vec<(String, String)>,
    pub agent_id: String,
    /// How many hits a recall asks for.
    pub top_k: u32,
}

#[derive(Clone, Debug)]
pub struct Config {
    /// Directories whose immediate subdirectories are treated as projects.
    pub roots: Vec<String>,
    /// Directory names skipped during scanning.
    pub ignore: Vec<String>,
    pub thresholds: Thresholds,
    pub timeline: TimelineConfig,
    pub server: ServerConfig,
    pub features: Features,
    /// Keyed by project directory name; a name occurs at most once.
    pub overrides: Vec<(String, ProjectOverride)>,
    pub colony: ColonyConfig,
    pub cortex: CortexConfig,
}

impl Default for Thresholds {
    fn default() -> (r: Self)
        ensures
            r.active_days == 7 && r.warm_days == 30 && r.cold_days == 180 && r.dirty_pile == 10,
    {
        Thresholds { active_days: 7, warm_days: 30, cold_days: 180, dirty_pile: 10 }
    }
}

impl Default for TimelineConfig {
    fn default() -> (r: Self)
        ensures
            r.days == 14 && r.max_per_project == 30,
    {
        TimelineConfig { days: 14, max_per_project: 30 }
    }
}

impl Default for ServerConfig {
    fn default() -> (r: Self)
        ensures
            r.bind@ == "127.0.0.1:7320"@,
            r.ui_dir@ == "ui-web"@,
    {
        // 7320 = "PFC" on a phone keypad.
        ServerConfig { bind: String::from_str("127.0.0.1:7320"), ui_dir: String::from_str("ui-web") }
    }
}

impl Default for Features {
    fn default() -> (r: Self)
        ensures
            !r.cerebro,
    {
        Features { cerebro: false }
    }
}

impl Default for ProjectOverride {
    fn default() -> (r: Self)
        ensures
            r.status is None,
            r.tags@.len() == 0,
            r.tagline is None,
            !r.ignore,
    {
        ProjectOverride { status: None, tags: Vec::new(), tagline: None, ignore: false }
    }
}

impl Default for ColonyConfig {
    fn default() -> (r: Self)
        ensures
            r.enabled,
            r.probe_secs == 15,
            r.ports@.len() == 0,
    {
        ColonyConfig { enabled: true, probe_secs: 15, ports: Vec::new() }
    }
}

impl Default for CortexConfig {
    fn default() -> (r: Self)
        ensures
            r.command@.len() == 0,
            r.args@.len() == 0,
            r.env@.len() == 0,
            r.agent_id@ == "prefrontal"@,
            r.top_k == 10,
    {
        CortexConfig {
            command: String::new(),
            args: Vec::new(),
            env: Vec::new(),
            agent_id: String::from_str("prefrontal"),
            top_k: 10,
        }
    }
}

impl Default for Config {
    fn default() -> (r: Self)
        ensures
            strings_view(r.roots@) == seq!["~/Projects"@],
            strings_view(r.ignore@) == seq![".vite"@, "node_modules"@, "target"@],
            r.thresholds.active_days == 7 && r.thresholds.warm_days == 30
                && r.thresholds.cold_days == 180 && r.thresholds.dirty_pile == 10,
            r.timeline.days == 14 && r.timeline.max_per_project == 30,
            r.server.bind@ == "127.0.0.1:7320"@,
            r.server.ui_dir@ == "ui-web"@,
            !r.features.cerebro,
            r.overrides@.len() == 0,
            r.colony.enabled && r.colony.probe_secs == 15 && r.colony.ports@.len() == 0,
            r.cortex.command@.len() == 0 && r.cortex.top_k == 10,
            r.wf(),
    {
        let mut roots: Vec<String> = Vec::new();
        roots.push(String::from_str("~/Projects"));
        let mut ignore: Vec<String> = Vec::new();
        ignore.push(String::from_str(".vite"));
        ignore.push(String::from_str("node_modules"));
        ignore.push(String::from_str("target"));
        let r = Config {
            roots,
            ignore,
            thresholds: Thresholds::default(),
            timeline: TimelineConfig::default(),
            server: ServerConfig::default(),
            features: Features::default(),
            overrides: Vec::new(),
            colony: ColonyConfig::default(),
            cortex: CortexConfig::default(),
        };
        assert(strings_view(r.roots@) =~= seq!["~/Projects"@]);
        assert(strings_view(r.ignore@) =~= seq![".vite"@, "node_modules"@, "target"@]);
        r
    }
}

// ---------------------------------------------------------------------
// Overrides
// ---------------------------------------------------------------------

/// No key occurs twice: the pairs hold a map, as the file's tables do.
pub open spec fn keys_unique<V>(pairs: Seq<(String, V)>) -> bool {
    forall|i: int, j: int| 0 <= i < j < pairs.len() ==> pairs[i].0@ != pairs[j].0@
}

impl Config {
    /// The per-project overrides and the colony's port overrides are keyed
    /// tables: each project or sibling name occurs at most once.
    pub open spec fn wf(self) -> bool {
        keys_unique(self.overrides@) && keys_unique(self.colony.ports@)
    }
}

/// In a keyed table of overrides, the lookup by a name gives the one entry
/// stored under that name, wherever it stands.
pub proof fn law_keyed_overrides(overrides: Seq<(String, ProjectOverride)>, name: Seq<char>, i: int)
    requires
        keys_unique(overrides),
        0 <= i < overrides.len(),
        overrides[i].0@ == name,
    ensures
        find_override(overrides, name) == Some(overrides[i].1),
{
    assert forall|j: int| 0 <= j < i implies overrides[j].0@ != name by {}
    lemma_find_override(overrides, name, i);
}

/// The override entry for `name`: the first whose key is `name`.
pub open spec fn is_first_key(overrides: Seq<(String, ProjectOverride)>, name: Seq<char>, i: int) -> bool {
    &&& 0 <= i < overrides.len()
    &&& overrides[i].0@ == name
    &&& forall|j: int| 0 <= j < i ==> overrides[j].0@ != name
}

/// No entry carries `name`.
pub open spec fn no_key(overrides: Seq<(String, ProjectOverride)>, name: Seq<char>) -> bool {
    forall|j: int| 0 <= j < overrides.len() ==> overrides[j].0@ != name
}

/// The override for `name`: the first entry whose key is `name`.
pub open spec fn find_override(overrides: Seq<(String, ProjectOverride)>, name: Seq<char>) -> Option<
    ProjectOverride,
>
    decreases overrides.len(),
{
    if overrides.len() == 0 {
        None
    } else if overrides[0].0@ == name {
        Some(overrides[0].1)
    } else {
        find_override(overrides.drop_first(), name)
    }
}

pub proof fn lemma_find_override(overrides: Seq<(String, ProjectOverride)>, name: Seq<char>, i: int)
    requires
        is_first_key(overrides, name, i),
    ensures
        find_override(overrides, name) == Some(overrides[i].1),
    decreases i,
{
    if i > 0 {
        let d = overrides.drop_first();
        assert forall|j: int| 0 <= j < i - 1 implies d[j].0@ != name by {
            assert(d[j] == overrides[j + 1]);
        }
        assert(d[i - 1] == overrides[i]);
        lemma_find_override(d, name, i - 1);
    }
}

pub proof fn lemma_no_override(overrides: Seq<(String, ProjectOverride)>, name: Seq<char>)
    requires
        no_key(overrides, name),
    ensures
        find_override(overrides, name) is None,
    decreases overrides.len(),
{
    if overrides.len() > 0 {
        let d = overrides.drop_first();
        assert forall|j: int| 0 <= j < d.len() implies d[j].0@ != name by {
            assert(d[j] == overrides[j + 1]);
        }
        lemma_no_override(d, name);
    }
}

impl Config {
    /// Position of the override for the project directory `name`.
    pub fn override_for(&self, name: &str) -> (r: Option<usize>)
        ensures
            match r {
                Some(i) => is_first_key(self.overrides@, name@, i as int),
                None => no_key(self.overrides@, name@),
            },
    {
        let mut i: usize = 0;
        while i < self.overrides.len()
            invariant
                i <= self.overrides@.len(),
                forall|j: int| 0 <= j < i ==> self.overrides@[j].0@ != name@,
            decreases self.overrides.len() - i,
        {
            if str_eq(self.overrides[i].0.as_str(), name) {
                return Some(i);
            }
            i += 1;
        }
        None
    }
}

// ---------------------------------------------------------------------
// Paths
// ---------------------------------------------------------------------

/// `Path::join`: an absolute `rel` replaces the base; otherwise one `/`
/// separates them unless the base already ends in one (or is empty).
pub open spec fn path_join(base: Seq<char>, rel: Seq<char>) -> Seq<char> {
    if rel.len() > 0 && rel[0] == '/' {
        rel
    } else if base.len() > 0 && base.last() != '/' {
        base + seq!['/'] + rel
    } else {
        base + rel
    }
}

/// `~/rest` becomes `<home>/rest` when the home directory is known.
pub open spec fn expand_tilde_spec(path: Seq<char>, home: Option<Seq<char>>) -> Seq<char> {
    if starts_with(path, "~/"@) && home is Some {
        path_join(home->0, path.subrange(2, path.len() as int))
    } else {
        path
    }
}

pub fn join_path(base: &str, rel: &str) -> (r: String)
    ensures
        r@ == path_join(base@, rel@),
{
    let b = chars_of(base);
    let rl = chars_of(rel);
    if rl.len() > 0 && rl[0] == '/' {
        return string_of(&rl);
    }
    let mut out: Vec<char> = Vec::new();
    extend_chars(&mut out, &b);
    if b.len() > 0 && b[b.len() - 1] != '/' {
        out.push('/');
    }
    extend_chars(&mut out, &rl);
    assert(out@ =~= path_join(base@, rel@));
    string_of(&out)
}

/// Tilde expansion against a known home directory.
pub fn expand_tilde_with(path: &str, home: &Option<String>) -> (r: String)
    ensures
        r@ == expand_tilde_spec(path@, opt_str_view(*home)),
{
    let p = chars_of(path);
    let prefix = chars_of("~/");
    proof {
        reveal_strlit("~/");
    }
    if starts_with_chars(&p, &prefix) {
        match home {
            Some(h) => {
                let rest = string_of(&slice_chars(&p, 2, p.len()));
                return join_path(h.as_str(), rest.as_str());
            },
            None => {},
        }
    }
    string_of(&p)
}

/// `dirs::home_dir`, rendered as a string. What it returns depends on the
/// environment of the process, so nothing is promised about it.
#[verifier::external_body]
pub(crate) fn home_dir() -> (r: Option<String>) {
    dirs::home_dir().map(|p| p.to_string_lossy().into_owned())
}

/// `dirs::config_dir`, rendered as a string; environment-dependent, so
/// nothing is promised about it.
#[verifier::external_body]
fn config_dir() -> (r: Option<String>) {
    dirs::config_dir().map(|p| p.to_string_lossy().into_owned())
}

/// `dirs::data_dir`, rendered as a string; environment-dependent, so
/// nothing is promised about it.
#[verifier::external_body]
fn data_dir() -> (r: Option<String>) {
    dirs::data_dir().map(|p| p.to_string_lossy().into_owned())
}

/// `~/rest` expanded against the user's home directory.
pub fn expand_tilde(path: &str) -> (r: String)
    ensures
        exists|home: Option<Seq<char>>| r@ == expand_tilde_spec(path@, home),
{
    let home = home_dir();
    expand_tilde_with(path, &home)
}

/// `<dir>/prefrontal/<leaf>` under a base directory.
pub fn app_file(dir: &Option<String>, leaf: &str) -> (r: Option<String>)
    ensures
        match *dir {
            Some(d) => r is Some && r->0@ == path_join(path_join(d@, "prefrontal"@), leaf@),
            None => r is None,
        },
{
    match dir {
        Some(d) => {
            let a = join_path(d.as_str(), "prefrontal");
            Some(join_path(a.as_str(), leaf))
        },
        None => None,
    }
}

impl Config {
    /// `~/.config/prefrontal/config.toml` (the platform config dir), if there is one.
    pub fn path() -> (r: Option<String>)
        ensures
            r is Some ==> exists|d: Seq<char>|
                r->0@ == path_join(path_join(d, "prefrontal"@), "config.toml"@),
    {
        app_file(&config_dir(), "config.toml")
    }

    /// Every root with `~` expanded against `home`, in order.
    pub fn root_candidates(&self, home: &Option<String>) -> (r: Vec<String>)
        ensures
            strings_view(r@) == strings_view(self.roots@).map_values(
                |p: Seq<char>| expand_tilde_spec(p, opt_str_view(*home)),
            ),
    {
        let mut r: Vec<String> = Vec::new();
        let mut i: usize = 0;
        while i < self.roots.len()
            invariant
                i <= self.roots@.len(),
                r@.len() == i,
                forall|k: int|
                    0 <= k < i ==> r@[k]@ == expand_tilde_spec(
                        self.roots@[k]@,
                        opt_str_view(*home),
                    ),
            decreases self.roots.len() - i,
        {
            r.push(expand_tilde_with(self.roots[i].as_str(), home));
            i += 1;
        }
        assert(strings_view(r@) =~= strings_view(self.roots@).map_values(
            |p: Seq<char>| expand_tilde_spec(p, opt_str_view(*home)),
        ));
        r
    }

    /// Roots with `~` expanded, keeping only the ones that are directories
    /// (`is_dir[i]` answers for root `i`).
    pub fn root_paths(&self, home: &Option<String>, is_dir: &Vec<bool>) -> (r: Vec<String>)
        requires
            is_dir@.len() == self.roots@.len(),
        ensures
            strings_view(r@) == kept_roots(strings_view(self.roots@), is_dir@, opt_str_view(*home)),
    {
        let mut r: Vec<String> = Vec::new();
        let mut i: usize = 0;
        while i < self.roots.len()
            invariant
                is_dir@.len() == self.roots@.len(),
                i <= self.roots@.len(),
                strings_view(r@) == kept_roots(
                    strings_view(self.roots@).subrange(0, i as int),
                    is_dir@.subrange(0, i as int),
                    opt_str_view(*home),
                ),
            decreases self.roots.len() - i,
        {
            let ghost pre = strings_view(r@);
            if is_dir[i] {
                r.push(expand_tilde_with(self.roots[i].as_str(), home));
                assert(strings_view(r@) =~= pre.push(
                    expand_tilde_spec(self.roots@[i as int]@, opt_str_view(*home)),
                ));
            }
            assert(strings_view(self.roots@).subrange(0, i + 1).drop_last() =~= strings_view(
                self.roots@,
            ).subrange(0, i as int));
            assert(is_dir@.subrange(0, i + 1).drop_last() =~= is_dir@.subrange(0, i as int));
            i += 1;
        }
        assert(strings_view(self.roots@).subrange(0, self.roots@.len() as int) =~= strings_view(
            self.roots@,
        ));
        assert(is_dir@.subrange(0, is_dir@.len() as int) =~= is_dir@);
        r
    }
}

/// The expanded roots whose directory exists, in order.
pub open spec fn kept_roots(roots: Seq<Seq<char>>, is_dir: Seq<bool>, home: Option<Seq<char>>) -> Seq<
    Seq<char>,
>
    decreases roots.len(),
{
    if roots.len() == 0 || is_dir.len() == 0 {
        Seq::empty()
    } else {
        let rest = kept_roots(roots.drop_last(), is_dir.drop_last(), home);
        if is_dir.last() {
            rest.push(expand_tilde_spec(roots.last(), home))
        } else {
            rest
        }
    }
}

/// Where the search index lives by default: `<data dir>/prefrontal/index`,
/// never inside projects.
pub fn default_index_dir() -> (r: Option<String>)
    ensures
        r is Some ==> exists|d: Seq<char>| r->0@ == path_join(path_join(d, "prefrontal"@), "index"@),
{
    app_file(&data_dir(), "index")
}

} // verus!
