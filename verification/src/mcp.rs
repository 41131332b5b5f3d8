//! The MCP stdio server's decisions: which method and tool a request names,
//! the argument defaults, the short-lived scan cache, where a doc is read
//! from, the timeline an agent gets, and the tool list. JSON framing and
//! the stdio loop are the application's.

use vstd::prelude::*;

use crate::colony::{named_path, project_path};
use crate::config::Config;
use crate::docs::{doc_exts, resolve_doc_path, resolve_spec};
use crate::protocol::{copy_projects, opt_str_view, projects_view, strings_view, CommitSummary, Project, ProjectView};
use crate::render::{clock_text, commit_entries, month_name, stamps_at, two_digits, weekday_name, zone_gives, LocalStamp};
use crate::scan::{in_window, RawHistory};
use crate::sort::{by_entry_time, entries_view, sort_desc, sort_entries_desc};
use crate::text::{dec_int, extend_str, push_dec, push_dec_i64, str_eq, string_of, trim, Trim};

verus! {

/// Scans are reused this long (ms): an agent turn firing several tools
/// should not pay for several scans.
pub const SCAN_TTL_MS: u64 = 10_000;

/// The protocol version answered when the client names none.
pub const PROTOCOL_VERSION: &'static str = "2024-11-05";

/// JSON-RPC "method not found".
pub const METHOD_NOT_FOUND: i64 = -32601;

// ---------------------------------------------------------------------
// Methods and tools
// ---------------------------------------------------------------------

#[derive(Clone, Copy, PartialEq, Eq, Structural, Debug)]
pub enum RpcMethod {
    Initialize,
    Ping,
    ToolsList,
    ToolsCall,
    Unknown,
}

pub open spec fn rpc_method_spec(m: Seq<char>) -> RpcMethod {
    if m == "initialize"@ {
        RpcMethod::Initialize
    } else if m == "ping"@ {
        RpcMethod::Ping
    } else if m == "tools/list"@ {
        RpcMethod::ToolsList
    } else if m == "tools/call"@ {
        RpcMethod::ToolsCall
    } else {
        RpcMethod::Unknown
    }
}

pub fn rpc_method(m: &str) -> (r: RpcMethod)
    ensures
        r == rpc_method_spec(m@),
{
    if str_eq(m, "initialize") {
        RpcMethod::Initialize
    } else if str_eq(m, "ping") {
        RpcMethod::Ping
    } else if str_eq(m, "tools/list") {
        RpcMethod::ToolsList
    } else if str_eq(m, "tools/call") {
        RpcMethod::ToolsCall
    } else {
        RpcMethod::Unknown
    }
}

/// The JSON-RPC error for a method the server does not have.
pub fn method_not_found(m: &str) -> (r: (i64, String))
    ensures
        r.0 == METHOD_NOT_FOUND,
        r.1@ == "method not found: "@ + m@,
{
    let mut v: Vec<char> = Vec::new();
    extend_str(&mut v, "method not found: ");
    extend_str(&mut v, m);
    (METHOD_NOT_FOUND, string_of(&v))
}

/// `initialize` echoes the client's protocol version, or offers ours.
pub fn negotiated_version(requested: Option<&str>) -> (r: String)
    ensures
        r@ == match requested {
            Some(v) => v@,
            None => PROTOCOL_VERSION@,
        },
{
    match requested {
        Some(v) => String::from_str(v),
        None => String::from_str(PROTOCOL_VERSION),
    }
}

#[derive(Clone, Copy, PartialEq, Eq, Structural, Debug)]
pub enum Tool {
    ListProjects,
    ProjectStatus,
    WhereWasI,
    Search,
    ListDocs,
    ReadDoc,
    WriteDoc,
    ColonyStatus,
}

pub open spec fn tool_spec(name: Seq<char>) -> Option<Tool> {
    if name == "list_projects"@ {
        Some(Tool::ListProjects)
    } else if name == "project_status"@ {
        Some(Tool::ProjectStatus)
    } else if name == "where_was_i"@ {
        Some(Tool::WhereWasI)
    } else if name == "search"@ {
        Some(Tool::Search)
    } else if name == "list_docs"@ {
        Some(Tool::ListDocs)
    } else if name == "read_doc"@ {
        Some(Tool::ReadDoc)
    } else if name == "write_doc"@ {
        Some(Tool::WriteDoc)
    } else if name == "colony_status"@ {
        Some(Tool::ColonyStatus)
    } else {
        None
    }
}

pub fn tool_of(name: &str) -> (r: Option<Tool>)
    ensures
        r == tool_spec(name@),
{
    if str_eq(name, "list_projects") {
        Some(Tool::ListProjects)
    } else if str_eq(name, "project_status") {
        Some(Tool::ProjectStatus)
    } else if str_eq(name, "where_was_i") {
        Some(Tool::WhereWasI)
    } else if str_eq(name, "search") {
        Some(Tool::Search)
    } else if str_eq(name, "list_docs") {
        Some(Tool::ListDocs)
    } else if str_eq(name, "read_doc") {
        Some(Tool::ReadDoc)
    } else if str_eq(name, "write_doc") {
        Some(Tool::WriteDoc)
    } else if str_eq(name, "colony_status") {
        Some(Tool::ColonyStatus)
    } else {
        None
    }
}

fn message2(a: &str, b: &str) -> (r: String)
    ensures
        r@ == a@ + b@,
{
    let mut v: Vec<char> = Vec::new();
    extend_str(&mut v, a);
    extend_str(&mut v, b);
    string_of(&v)
}

/// The tool-level error for a tool the server does not have.
pub fn unknown_tool(name: &str) -> (r: String)
    ensures
        r@ == "unknown tool: "@ + name@,
{
    message2("unknown tool: ", name)
}

/// `where_was_i`'s look-back in days: the argument, else 14.
pub fn where_days(arg: Option<u64>) -> (r: i64)
    ensures
        r == match arg {
            Some(d) => d as i64,
            None => 14i64,
        },
{
    match arg {
        Some(d) => #[verifier::truncate] (d as i64),
        None => 14,
    }
}

/// `search`'s hit limit: the argument, else 20, never above 100. A limit
/// of 0 asks for no hits at all, which the index cannot serve: it is a
/// tool error.
pub fn search_limit(arg: Option<u64>) -> (r: Result<usize, String>)
    ensures
        arg == Some(0u64) <==> r is Err,
        match r {
            Ok(n) => n == ({
                let l = match arg {
                    Some(n) => n as usize,
                    None => 20usize,
                };
                if l < 100 {
                    l
                } else {
                    100usize
                }
            }),
            Err(m) => m@ == "limit must be at least 1"@,
        },
{
    let l: usize = match arg {
        Some(0) => {
            return Err(String::from_str("limit must be at least 1"));
        },
        Some(n) => #[verifier::truncate] (n as usize),
        None => 20,
    };
    if l < 100 {
        Ok(l)
    } else {
        Ok(100)
    }
}

/// A search tool call needs a query that is not blank.
pub fn check_query(query: &str) -> (r: Result<(), String>)
    ensures
        r is Err <==> trim(Trim::Whitespace, query@).len() == 0,
        match r {
            Err(m) => m@ == "query must not be empty"@,
            Ok(_) => true,
        },
{
    if crate::render::query_is_blank(query) {
        Err(String::from_str("query must not be empty"))
    } else {
        Ok(())
    }
}

/// `no hits for "<query>"`.
pub fn no_hits(query: &str) -> (r: String)
    ensures
        r@ == "no hits for \""@ + query@ + "\""@,
{
    let mut v: Vec<char> = Vec::new();
    extend_str(&mut v, "no hits for \"");
    extend_str(&mut v, query);
    extend_str(&mut v, "\"");
    string_of(&v)
}

/// The colony tool and command refuse when the panel is disabled.
pub fn colony_gate(cfg: &Config) -> (r: Result<(), String>)
    ensures
        r is Ok <==> cfg.colony.enabled,
        match r {
            Err(m) => m@ == "colony panel disabled in the config (colony.enabled = false)"@,
            Ok(_) => true,
        },
{
    if cfg.colony.enabled {
        Ok(())
    } else {
        Err(String::from_str("colony panel disabled in the config (colony.enabled = false)"))
    }
}

/// The message for a project name that is not among the scanned ones.
pub fn unknown_project(name: &str) -> (r: String)
    ensures
        r@ == "unknown project: "@ + name@,
{
    message2("unknown project: ", name)
}

// ---------------------------------------------------------------------
// The server state
// ---------------------------------------------------------------------

/// A cached scan is stale when there is none or it is older than the TTL.
pub open spec fn stale(at: Option<u64>, now: u64) -> bool {
    match at {
        None => true,
        Some(t) => now as int - t as int > SCAN_TTL_MS as int,
    }
}

/// The MCP server: the configuration and the last scan with its time (ms).
pub struct Server {
    cfg: Config,
    cache: Option<(u64, Vec<Project>)>,
}

impl Server {
    pub closed spec fn config_spec(&self) -> Config {
        self.cfg
    }

    /// The configuration the server was started with.
    pub fn config(&self) -> (r: &Config)
        ensures
            *r == self.config_spec(),
    {
        &self.cfg
    }

    pub closed spec fn cached_at(&self) -> Option<u64> {
        match self.cache {
            Some(c) => Some(c.0),
            None => None,
        }
    }

    pub closed spec fn cached(&self) -> Seq<ProjectView> {
        match self.cache {
            Some(c) => projects_view(c.1@),
            None => Seq::empty(),
        }
    }

    pub fn new(cfg: Config) -> (r: Server)
        ensures
            r.config_spec() == cfg,
            r.cached_at() is None,
            r.cached() == Seq::<ProjectView>::empty(),
    {
        Server { cfg, cache: None }
    }

    /// Whether the next tool needs a fresh scan.
    pub fn needs_scan(&self, now_ms: u64) -> (r: bool)
        ensures
            r == stale(self.cached_at(), now_ms),
    {
        match &self.cache {
            None => true,
            Some(c) => now_ms > c.0 && now_ms - c.0 > SCAN_TTL_MS,
        }
    }

    /// Keeps a fresh scan taken at `now_ms`.
    pub fn store_scan(&mut self, now_ms: u64, projects: Vec<Project>)
        ensures
            final(self).cached_at() == Some(now_ms),
            final(self).cached() == projects_view(projects@),
            final(self).config_spec() == old(self).config_spec(),
    {
        self.cache = Some((now_ms, projects));
    }

    /// The projects the tools answer from: the cached scan while it is at
    /// most `SCAN_TTL_MS` old at `now_ms`; otherwise (or before the first
    /// scan) a fresh scan from `scan`, which is kept as the cache taken at
    /// `now_ms`.
    pub fn projects<F: FnOnce() -> Vec<Project>>(&mut self, now_ms: u64, scan: F) -> (r: Vec<Project>)
        requires
            scan.requires(()),
        ensures
            final(self).config_spec() == old(self).config_spec(),
            !stale(old(self).cached_at(), now_ms) ==> projects_view(r@) == old(self).cached()
                && final(self).cached() == old(self).cached() && final(self).cached_at() == old(
                self,
            ).cached_at(),
            stale(old(self).cached_at(), now_ms) ==> exists|fresh: Vec<Project>|
                #[trigger] scan.ensures((), fresh) && projects_view(r@) == projects_view(fresh@)
                    && final(self).cached_at() == Some(now_ms) && final(self).cached() == projects_view(
                    fresh@,
                ),
    {
        if self.needs_scan(now_ms) {
            let fresh = scan();
            let r = copy_projects(&fresh);
            self.store_scan(now_ms, fresh);
            r
        } else {
            self.cached_projects()
        }
    }

    /// The projects of the last scan kept, as they are (none before the
    /// first scan); no scan is taken.
    pub fn cached_projects(&self) -> (r: Vec<Project>)
        ensures
            projects_view(r@) == self.cached(),
    {
        match &self.cache {
            Some(c) => copy_projects(&c.1),
            None => {
                let v: Vec<Project> = Vec::new();
                assert(projects_view(v@) =~= Seq::<ProjectView>::empty());
                v
            },
        }
    }

    /// A project's directory, found by name among the cached projects only.
    pub fn project_dir(&self, name: &str) -> (r: Option<String>)
        ensures
            opt_str_view(r) == named_path(self.cached(), name@),
    {
        match &self.cache {
            Some(c) => project_path(&c.1, name),
            None => None,
        }
    }

    /// The file `read_doc` reads: the project by name, then the checked
    /// relative path; the error text is what the agent sees.
    pub fn tool_read_doc(&self, project: &str, path: &str) -> (r: Result<String, String>)
        ensures
            match named_path(self.cached(), project@) {
                None => r is Err && r->Err_0@ == "unknown project: "@ + project@,
                Some(dir) => match resolve_spec(dir, path@, doc_exts()) {
                    Ok(p) => r is Ok && r->Ok_0@ == p,
                    Err(_) => r is Err && r->Err_0@ == doc_path_refusal(path@),
                },
            },
    {
        match self.project_dir(project) {
            None => Err(unknown_project(project)),
            Some(dir) => match resolve_doc_path(dir.as_str(), path) {
                Ok(p) => Ok(p),
                Err(e) => Err(e.message()),
            },
        }
    }

    /// `project_status`: the project by name, or the agent-facing error.
    pub fn tool_project_status(&self, name: &str) -> (r: Result<Project, String>)
        ensures
            match first_named(self.cached(), name@) {
                Some(p) => r is Ok && r->Ok_0@ == p,
                None => r is Err && r->Err_0@ == "unknown project: "@ + name@ + " (try list_projects)"@,
            },
    {
        let all = self.cached_projects();
        let ghost pv = projects_view(all@);
        let mut i: usize = 0;
        assert(pv.subrange(0, pv.len() as int) =~= pv);
        while i < all.len()
            invariant
                i <= pv.len(),
                pv == projects_view(all@),
                pv == self.cached(),
                first_named(pv, name@) == first_named(pv.subrange(i as int, pv.len() as int), name@),
            decreases all.len() - i,
        {
            let ghost rest = pv.subrange(i as int, pv.len() as int);
            assert(rest[0] == all@[i as int]@);
            assert(rest.drop_first() =~= pv.subrange(i + 1, pv.len() as int));
            if str_eq(all[i].name.as_str(), name) {
                return Ok(crate::protocol::copy_project(&all[i]));
            }
            i += 1;
        }
        let mut v: Vec<char> = Vec::new();
        extend_str(&mut v, "unknown project: ");
        extend_str(&mut v, name);
        extend_str(&mut v, " (try list_projects)");
        Err(string_of(&v))
    }

    /// `where_was_i` by the clock and the time zone `zone` (offset in
    /// seconds east of UTC for an instant), over the histories the
    /// application read for the cached projects (each project's name and
    /// the walk from its HEAD, if it has one). Whatever the clock and the
    /// zone give, the text is `where_text` of every commit no older than
    /// `days` days before some `now`, newest first, each stamped at an
    /// offset the zone gives for it.
    pub fn tool_where_was_i<F: Fn(i64) -> i32>(
        &self,
        days: i64,
        histories: &Vec<(String, Option<RawHistory>)>,
        zone: &F,
    ) -> (r: String)
        requires
            forall|t: i64| zone.requires((t,)),
        ensures
            exists|now: i64, offs: Seq<i32>|
                zone_gives(*zone, where_entries(histories@, now, days), offs) && r@ == where_text(
                    where_entries(histories@, now, days),
                    stamps_at(where_entries(histories@, now, days), offs),
                    days,
                ),
    {
        let now = crate::scan::now_unix();
        let cutoff: i128 = now as i128 - days as i128 * 86400;
        let recent = history_window(histories, cutoff);
        let stamps = crate::render::local_stamps(&recent, zone);
        let ghost offs = choose|offs: Seq<i32>|
            zone_gives(*zone, entries_view(recent@), offs) && stamps@ == stamps_at(entries_view(recent@), offs);
        let r = where_lines(&recent, &stamps, days);
        assert(zone_gives(*zone, where_entries(histories@, now, days), offs) && r@ == where_text(
            where_entries(histories@, now, days),
            stamps_at(where_entries(histories@, now, days), offs),
            days,
        ));
        r
    }
}


/// Why a doc path is refused: it leaves the project, or it is not a doc.
pub open spec fn doc_path_refusal(rel: Seq<char>) -> Seq<char> {
    if !crate::docs::rel_is_inside(rel) {
        "path must be relative and stay inside the project"@
    } else {
        "only "@ + crate::docs::debug_list(doc_exts()) + " files"@
    }
}

pub open spec fn first_named(ps: Seq<ProjectView>, name: Seq<char>) -> Option<ProjectView>
    decreases ps.len(),
{
    if ps.len() == 0 {
        None
    } else if ps[0].name == name {
        Some(ps[0])
    } else {
        first_named(ps.drop_first(), name)
    }
}

/// A scan taken at `t` serves until `SCAN_TTL_MS` have passed, and a new
/// one is taken after that.
pub proof fn law_scan_cache_ttl(t: u64, now: u64)
    ensures
        !stale(Some(t), now) <==> now as int - t as int <= SCAN_TTL_MS as int,
        stale(None, now),
{
}

// ---------------------------------------------------------------------
// "Where was I"
// ---------------------------------------------------------------------

/// `%a %d %b %H:%M` of a local stamp; empty when the instant has none.
pub open spec fn where_stamp(s: Option<LocalStamp>) -> Seq<char> {
    match s {
        Some(s) => weekday_name(s.weekday) + " "@ + two_digits(s.day) + " "@ + month_name(s.month) + " "@
            + clock_text(s),
        None => Seq::empty(),
    }
}

pub open spec fn where_line(e: (Seq<char>, crate::protocol::CommitSummaryView), s: Option<LocalStamp>) -> Seq<char> {
    where_stamp(s) + "  "@ + e.0 + " — "@ + e.1.summary
}

pub open spec fn where_join(
    es: Seq<(Seq<char>, crate::protocol::CommitSummaryView)>,
    stamps: Seq<Option<LocalStamp>>,
) -> Seq<char>
    decreases es.len(),
{
    if es.len() == 0 {
        Seq::empty()
    } else if es.len() == 1 {
        where_line(es[0], stamps[0])
    } else {
        where_join(es.drop_last(), stamps) + "\n"@ + where_line(es.last(), stamps[es.len() - 1])
    }
}

/// The agent's timeline: one line per commit, newest first, or a note
/// that the window is empty.
pub open spec fn where_text(
    es: Seq<(Seq<char>, crate::protocol::CommitSummaryView)>,
    stamps: Seq<Option<LocalStamp>>,
    days: i64,
) -> Seq<char> {
    if es.len() == 0 {
        "no commits in the last "@ + dec_int(days as int) + " days"@
    } else {
        where_join(es, stamps)
    }
}

/// Every commit of the histories no older than `cutoff`, each with its
/// project's name, in history and walk order.
pub open spec fn history_entries(
    hs: Seq<(String, Option<RawHistory>)>,
    cutoff: int,
) -> Seq<(Seq<char>, crate::protocol::CommitSummaryView)>
    decreases hs.len(),
{
    if hs.len() == 0 {
        Seq::empty()
    } else {
        let rest = history_entries(hs.drop_last(), cutoff);
        match hs.last().1 {
            Some(h) => rest + in_window(h.walk@, cutoff).map_values(
                |c: crate::protocol::CommitSummaryView| (hs.last().0@, c),
            ),
            None => rest,
        }
    }
}

/// `where_was_i`'s commits at clock time `now`: those no older than `days`
/// days, newest first.
pub open spec fn where_entries(
    hs: Seq<(String, Option<RawHistory>)>,
    now: i64,
    days: i64,
) -> Seq<(Seq<char>, crate::protocol::CommitSummaryView)> {
    sort_desc(history_entries(hs, now as int - days as int * 86400), by_entry_time())
}

/// Every commit of the histories no older than `cutoff`, newest first.
pub fn history_window(histories: &Vec<(String, Option<RawHistory>)>, cutoff: i128) -> (r: Vec<(String, CommitSummary)>)
    ensures
        entries_view(r@) == sort_desc(history_entries(histories@, cutoff as int), by_entry_time()),
{
    let ghost hv = histories@;
    let mut out: Vec<(String, CommitSummary)> = Vec::new();
    let mut i: usize = 0;
    while i < histories.len()
        invariant
            i <= hv.len(),
            hv == histories@,
            entries_view(out@) == history_entries(hv.subrange(0, i as int), cutoff as int),
        decreases histories.len() - i,
    {
        assert(hv.subrange(0, i + 1).drop_last() =~= hv.subrange(0, i as int));
        assert(hv.subrange(0, i + 1).last() == hv[i as int]);
        let ghost base = entries_view(out@);
        match &histories[i].1 {
            Some(h) => {
                let w = crate::scan::window(&h.walk, cutoff);
                let ghost cs = crate::protocol::commits_view(w@);
                let mut j: usize = 0;
                while j < w.len()
                    invariant
                        i < hv.len(),
                        hv == histories@,
                        j <= w@.len(),
                        cs == crate::protocol::commits_view(w@),
                        entries_view(out@) == base + cs.subrange(0, j as int).map_values(
                            |c: crate::protocol::CommitSummaryView| (hv[i as int].0@, c),
                        ),
                    decreases w.len() - j,
                {
                    let ghost before = entries_view(out@);
                    out.push((crate::protocol::copy_string(&histories[i].0), crate::protocol::copy_commit(&w[j])));
                    assert(entries_view(out@) =~= before.push((hv[i as int].0@, cs[j as int])));
                    assert(entries_view(out@) =~= base + cs.subrange(0, j + 1).map_values(
                        |c: crate::protocol::CommitSummaryView| (hv[i as int].0@, c),
                    ));
                    j += 1;
                }
                assert(cs.subrange(0, cs.len() as int) =~= cs);
            },
            None => {},
        }
        i += 1;
    }
    assert(hv.subrange(0, hv.len() as int) =~= hv);
    sort_entries_desc(out)
}

/// The agent's timeline text for entries already newest first.
pub fn where_lines(entries: &Vec<(String, CommitSummary)>, stamps: &Vec<Option<LocalStamp>>, days: i64) -> (r: String)
    requires
        stamps@.len() == entries@.len(),
    ensures
        r@ == where_text(entries_view(entries@), stamps@, days),
{
    let ghost ev = entries_view(entries@);
    let mut v: Vec<char> = Vec::new();
    if entries.len() == 0 {
        extend_str(&mut v, "no commits in the last ");
        push_dec_i64(&mut v, days);
        extend_str(&mut v, " days");
        return string_of(&v);
    }
    let mut i: usize = 0;
    while i < entries.len()
        invariant
            i <= entries@.len(),
            stamps@.len() == entries@.len(),
            ev == entries_view(entries@),
            v@ == where_join(ev.subrange(0, i as int), stamps@),
        decreases entries.len() - i,
    {
        assert(ev.subrange(0, i + 1).drop_last() =~= ev.subrange(0, i as int));
        assert(ev.subrange(0, i + 1).last() == ev[i as int]);
        if i > 0 {
            extend_str(&mut v, "\n");
        }
        match stamps[i] {
            Some(s) => {
                extend_str(&mut v, crate::render::weekday_str(s.weekday));
                extend_str(&mut v, " ");
                push_two(&mut v, s.day);
                extend_str(&mut v, " ");
                extend_str(&mut v, crate::render::month_str(s.month));
                extend_str(&mut v, " ");
                crate::render::push_clock(&mut v, s);
            },
            None => {},
        }
        extend_str(&mut v, "  ");
        extend_str(&mut v, entries[i].0.as_str());
        extend_str(&mut v, " — ");
        extend_str(&mut v, entries[i].1.summary.as_str());
        assert(v@ =~= where_join(ev.subrange(0, i + 1), stamps@));
        i += 1;
    }
    assert(ev.subrange(0, ev.len() as int) =~= ev);
    string_of(&v)
}

fn push_two(v: &mut Vec<char>, n: u32)
    ensures
        final(v)@ == old(v)@ + two_digits(n),
{
    if n < 10 {
        extend_str(v, "0");
    }
    push_dec(v, n as u64);
}

// ---------------------------------------------------------------------
// The tool list
// ---------------------------------------------------------------------

/// One input of a tool: its name, JSON type and optional description.
#[derive(Clone, Debug)]
pub struct ToolParam {
    pub name: String,
    pub kind: String,
    pub description: Option<String>,
}

/// A tool as `tools/list` announces it; its input schema is an object of
/// `params` with `required` names.
#[derive(Clone, Debug)]
pub struct ToolDef {
    pub name: String,
    pub description: String,
    pub params: Vec<ToolParam>,
    pub required: Vec<String>,
}

pub struct ToolParamView {
    pub name: Seq<char>,
    pub kind: Seq<char>,
    pub description: Option<Seq<char>>,
}

pub struct ToolDefView {
    pub name: Seq<char>,
    pub description: Seq<char>,
    pub params: Seq<ToolParamView>,
    pub required: Seq<Seq<char>>,
}

impl View for ToolParam {
    type V = ToolParamView;

    open spec fn view(&self) -> ToolParamView {
        ToolParamView { name: self.name@, kind: self.kind@, description: opt_str_view(self.description) }
    }
}

impl View for ToolDef {
    type V = ToolDefView;

    open spec fn view(&self) -> ToolDefView {
        ToolDefView {
            name: self.name@,
            description: self.description@,
            params: self.params@.map_values(|p: ToolParam| p@),
            required: strings_view(self.required@),
        }
    }
}

pub open spec fn param_spec(name: Seq<char>, kind: Seq<char>, description: Option<Seq<char>>) -> ToolParamView {
    ToolParamView { name, kind, description }
}

pub open spec fn tool_def_spec(
    name: Seq<char>,
    description: Seq<char>,
    params: Seq<ToolParamView>,
    required: Seq<Seq<char>>,
) -> ToolDefView {
    ToolDefView { name, description, params, required }
}

/// The eight tools, in announcement order.
pub open spec fn tool_defs_spec() -> Seq<ToolDefView> {
    seq![
        tool_def_spec("list_projects"@, "Every project under the roots: activity state, languages, branch, dirty count, health flags, tagline. Start here to see what exists."@, Seq::empty(), Seq::empty()),
        tool_def_spec("project_status"@, "Full detail for one project, including its recent commits."@, seq![param_spec("project"@, "string"@, Some("project directory name"@))], seq!["project"@]),
        tool_def_spec("where_was_i"@, "Cross-project commit timeline, newest first — what the human was working on recently."@, seq![param_spec("days"@, "integer"@, Some("look-back window, default 14"@))], Seq::empty()),
        tool_def_spec("search"@, "Full-text search across code, docs, and commit messages of ALL projects. Use before writing something that may already exist."@, seq![param_spec("query"@, "string"@, None), param_spec("limit"@, "integer"@, Some("max hits, default 20"@))], seq!["query"@]),
        tool_def_spec("list_docs"@, "Markdown/text docs inside a project (README first)."@, seq![param_spec("project"@, "string"@, None)], seq!["project"@]),
        tool_def_spec("read_doc"@, "Raw markdown of one doc."@, seq![param_spec("project"@, "string"@, None), param_spec("path"@, "string"@, Some("path relative to the project root"@))], seq!["project"@, "path"@]),
        tool_def_spec("write_doc"@, "Create or update a markdown note; Prefrontal commits it locally ([prefrontal] prefix, that file only). Never pushes."@, seq![param_spec("project"@, "string"@, None), param_spec("path"@, "string"@, None), param_spec("content"@, "string"@, None)], seq!["project"@, "path"@, "content"@]),
        tool_def_spec("colony_status"@, "Which sibling -RS services are installed on this machine, whether each is live RIGHT NOW (loopback probe), and how to reach it: web UI URL, HTTP API port, MCP server name, or CLI binary. Ask this before assuming a sibling like Cerebro or Imaginarium is (or isn't) running."@, Seq::empty(), Seq::empty()),
    ]
}

fn param(name: &str, kind: &str, description: Option<&str>) -> (r: ToolParam)
    ensures
        r@ == param_spec(
            name@,
            kind@,
            match description {
                Some(d) => Some(d@),
                None => None::<Seq<char>>,
            },
        ),
{
    ToolParam {
        name: String::from_str(name),
        kind: String::from_str(kind),
        description: match description {
            Some(d) => Some(String::from_str(d)),
            None => None,
        },
    }
}

fn tool_def(name: &str, description: &str, params: Vec<ToolParam>, required: Vec<String>) -> (r: ToolDef)
    ensures
        r@ == tool_def_spec(name@, description@, params@.map_values(|p: ToolParam| p@), strings_view(required@)),
{
    ToolDef { name: String::from_str(name), description: String::from_str(description), params, required }
}

pub open spec fn tool_defs_view(v: Seq<ToolDef>) -> Seq<ToolDefView> {
    v.map_values(|d: ToolDef| d@)
}

fn def_list_projects() -> (r: ToolDef)
    ensures
        r@ == tool_def_spec("list_projects"@, "Every project under the roots: activity state, languages, branch, dirty count, health flags, tagline. Start here to see what exists."@, Seq::<ToolParamView>::empty(), Seq::<Seq<char>>::empty()),
{
    let mut ps: Vec<ToolParam> = Vec::new();
    assert(ps@.map_values(|p: ToolParam| p@) =~= Seq::<ToolParamView>::empty());
    let mut req: Vec<String> = Vec::new();
    assert(strings_view(req@) =~= Seq::<Seq<char>>::empty());
    tool_def("list_projects", "Every project under the roots: activity state, languages, branch, dirty count, health flags, tagline. Start here to see what exists.", ps, req)
}

fn def_project_status() -> (r: ToolDef)
    ensures
        r@ == tool_def_spec("project_status"@, "Full detail for one project, including its recent commits."@, seq![param_spec("project"@, "string"@, Some("project directory name"@))], seq!["project"@]),
{
    let mut ps: Vec<ToolParam> = Vec::new();
    ps.push(param("project", "string", Some("project directory name")));
    assert(ps@.map_values(|p: ToolParam| p@) =~= seq![param_spec("project"@, "string"@, Some("project directory name"@))]);
    let mut req: Vec<String> = Vec::new();
    req.push(String::from_str("project"));
    assert(strings_view(req@) =~= seq!["project"@]);
    tool_def("project_status", "Full detail for one project, including its recent commits.", ps, req)
}

fn def_where_was_i() -> (r: ToolDef)
    ensures
        r@ == tool_def_spec("where_was_i"@, "Cross-project commit timeline, newest first — what the human was working on recently."@, seq![param_spec("days"@, "integer"@, Some("look-back window, default 14"@))], Seq::<Seq<char>>::empty()),
{
    let mut ps: Vec<ToolParam> = Vec::new();
    ps.push(param("days", "integer", Some("look-back window, default 14")));
    assert(ps@.map_values(|p: ToolParam| p@) =~= seq![param_spec("days"@, "integer"@, Some("look-back window, default 14"@))]);
    let mut req: Vec<String> = Vec::new();
    assert(strings_view(req@) =~= Seq::<Seq<char>>::empty());
    tool_def("where_was_i", "Cross-project commit timeline, newest first — what the human was working on recently.", ps, req)
}

fn def_search() -> (r: ToolDef)
    ensures
        r@ == tool_def_spec("search"@, "Full-text search across code, docs, and commit messages of ALL projects. Use before writing something that may already exist."@, seq![param_spec("query"@, "string"@, None), param_spec("limit"@, "integer"@, Some("max hits, default 20"@))], seq!["query"@]),
{
    let mut ps: Vec<ToolParam> = Vec::new();
    ps.push(param("query", "string", None));
    ps.push(param("limit", "integer", Some("max hits, default 20")));
    assert(ps@.map_values(|p: ToolParam| p@) =~= seq![param_spec("query"@, "string"@, None), param_spec("limit"@, "integer"@, Some("max hits, default 20"@))]);
    let mut req: Vec<String> = Vec::new();
    req.push(String::from_str("query"));
    assert(strings_view(req@) =~= seq!["query"@]);
    tool_def("search", "Full-text search across code, docs, and commit messages of ALL projects. Use before writing something that may already exist.", ps, req)
}

fn def_list_docs() -> (r: ToolDef)
    ensures
        r@ == tool_def_spec("list_docs"@, "Markdown/text docs inside a project (README first)."@, seq![param_spec("project"@, "string"@, None)], seq!["project"@]),
{
    let mut ps: Vec<ToolParam> = Vec::new();
    ps.push(param("project", "string", None));
    assert(ps@.map_values(|p: ToolParam| p@) =~= seq![param_spec("project"@, "string"@, None)]);
    let mut req: Vec<String> = Vec::new();
    req.push(String::from_str("project"));
    assert(strings_view(req@) =~= seq!["project"@]);
    tool_def("list_docs", "Markdown/text docs inside a project (README first).", ps, req)
}

fn def_read_doc() -> (r: ToolDef)
    ensures
        r@ == tool_def_spec("read_doc"@, "Raw markdown of one doc."@, seq![param_spec("project"@, "string"@, None), param_spec("path"@, "string"@, Some("path relative to the project root"@))], seq!["project"@, "path"@]),
{
    let mut ps: Vec<ToolParam> = Vec::new();
    ps.push(param("project", "string", None));
    ps.push(param("path", "string", Some("path relative to the project root")));
    assert(ps@.map_values(|p: ToolParam| p@) =~= seq![param_spec("project"@, "string"@, None), param_spec("path"@, "string"@, Some("path relative to the project root"@))]);
    let mut req: Vec<String> = Vec::new();
    req.push(String::from_str("project"));
    req.push(String::from_str("path"));
    assert(strings_view(req@) =~= seq!["project"@, "path"@]);
    tool_def("read_doc", "Raw markdown of one doc.", ps, req)
}

fn def_write_doc() -> (r: ToolDef)
    ensures
        r@ == tool_def_spec("write_doc"@, "Create or update a markdown note; Prefrontal commits it locally ([prefrontal] prefix, that file only). Never pushes."@, seq![param_spec("project"@, "string"@, None), param_spec("path"@, "string"@, None), param_spec("content"@, "string"@, None)], seq!["project"@, "path"@, "content"@]),
{
    let mut ps: Vec<ToolParam> = Vec::new();
    ps.push(param("project", "string", None));
    ps.push(param("path", "string", None));
    ps.push(param("content", "string", None));
    assert(ps@.map_values(|p: ToolParam| p@) =~= seq![param_spec("project"@, "string"@, None), param_spec("path"@, "string"@, None), param_spec("content"@, "string"@, None)]);
    let mut req: Vec<String> = Vec::new();
    req.push(String::from_str("project"));
    req.push(String::from_str("path"));
    req.push(String::from_str("content"));
    assert(strings_view(req@) =~= seq!["project"@, "path"@, "content"@]);
    tool_def("write_doc", "Create or update a markdown note; Prefrontal commits it locally ([prefrontal] prefix, that file only). Never pushes.", ps, req)
}

fn def_colony_status() -> (r: ToolDef)
    ensures
        r@ == tool_def_spec("colony_status"@, "Which sibling -RS services are installed on this machine, whether each is live RIGHT NOW (loopback probe), and how to reach it: web UI URL, HTTP API port, MCP server name, or CLI binary. Ask this before assuming a sibling like Cerebro or Imaginarium is (or isn't) running."@, Seq::<ToolParamView>::empty(), Seq::<Seq<char>>::empty()),
{
    let mut ps: Vec<ToolParam> = Vec::new();
    assert(ps@.map_values(|p: ToolParam| p@) =~= Seq::<ToolParamView>::empty());
    let mut req: Vec<String> = Vec::new();
    assert(strings_view(req@) =~= Seq::<Seq<char>>::empty());
    tool_def("colony_status", "Which sibling -RS services are installed on this machine, whether each is live RIGHT NOW (loopback probe), and how to reach it: web UI URL, HTTP API port, MCP server name, or CLI binary. Ask this before assuming a sibling like Cerebro or Imaginarium is (or isn't) running.", ps, req)
}

/// What `tools/list` announces.
pub fn tool_definitions() -> (r: Vec<ToolDef>)
    ensures
        tool_defs_view(r@) == tool_defs_spec(),
{
    let mut r: Vec<ToolDef> = Vec::new();
    r.push(def_list_projects());
    r.push(def_project_status());
    r.push(def_where_was_i());
    r.push(def_search());
    r.push(def_list_docs());
    r.push(def_read_doc());
    r.push(def_write_doc());
    r.push(def_colony_status());
    assert(tool_defs_view(r@) =~= tool_defs_spec());
    r
}

} // verus!
