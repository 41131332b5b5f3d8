//! What the terminal and the native frontend show: activity and flag words,
//! "how long ago", the status table, the rot check, the colony table and
//! search hits, each as exact text.

use vstd::prelude::*;

use chrono::{Datelike, Timelike};

use crate::sort::{by_entry_time, entries_view, sort_desc, sort_entries_desc};
use crate::protocol::{projects_view, strings_view, Activity, ColonyStatus, GitInfoView, HealthFlag, Project, ProjectView, Sibling, SiblingSurface, SiblingView};
use crate::text::{
    chars_of, clip, clip_chars, dec, extend_chars, extend_str, join, join_chars, lemma_char_vec_deep,
    pad_left, pad_right, push_dec, push_pad_left, push_pad_right, string_of, trim, trim_chars, Trim,
};

verus! {

// ---------------------------------------------------------------------
// Words
// ---------------------------------------------------------------------

pub open spec fn activity_text(a: Activity) -> Seq<char> {
    match a {
        Activity::Active => "active"@,
        Activity::Warm => "warm"@,
        Activity::Cold => "cold"@,
        Activity::Parked => "parked"@,
        Activity::Archived => "archived"@,
    }
}

pub fn activity_str(a: Activity) -> (r: &'static str)
    ensures
        r@ == activity_text(a),
{
    match a {
        Activity::Active => "active",
        Activity::Warm => "warm",
        Activity::Cold => "cold",
        Activity::Parked => "parked",
        Activity::Archived => "archived",
    }
}

pub open spec fn flag_text(f: HealthFlag) -> Seq<char> {
    match f {
        HealthFlag::NoGit => "no-git"@,
        HealthFlag::NoRemote => "no-remote"@,
        HealthFlag::NeverCommitted => "never-committed"@,
        HealthFlag::DirtyPile { count } => "dirty-pile("@ + dec(count as nat) + ")"@,
    }
}

pub open spec fn flags_text(flags: Seq<HealthFlag>) -> Seq<char> {
    join(flags.map_values(|f: HealthFlag| flag_text(f)), " "@)
}

fn flag_chars(f: HealthFlag) -> (r: Vec<char>)
    ensures
        r@ == flag_text(f),
{
    let mut v: Vec<char> = Vec::new();
    match f {
        HealthFlag::NoGit => extend_str(&mut v, "no-git"),
        HealthFlag::NoRemote => extend_str(&mut v, "no-remote"),
        HealthFlag::NeverCommitted => extend_str(&mut v, "never-committed"),
        HealthFlag::DirtyPile { count } => {
            extend_str(&mut v, "dirty-pile(");
            push_dec(&mut v, count as u64);
            extend_str(&mut v, ")");
        },
    }
    v
}

/// The health flags as words, space-separated.
pub fn flags_str(flags: &Vec<HealthFlag>) -> (r: String)
    ensures
        r@ == flags_text(flags@),
{
    let mut parts: Vec<Vec<char>> = Vec::new();
    let mut i: usize = 0;
    while i < flags.len()
        invariant
            i <= flags@.len(),
            parts.deep_view() == flags@.subrange(0, i as int).map_values(|f: HealthFlag| flag_text(f)),
        decreases flags.len() - i,
    {
        let w = flag_chars(flags[i]);
        let ghost before = parts.deep_view();
        proof {
            lemma_char_vec_deep(w);
        }
        parts.push(w);
        assert(parts.deep_view() =~= before.push(flag_text(flags@[i as int])));
        assert(parts.deep_view() =~= flags@.subrange(0, i + 1).map_values(|f: HealthFlag| flag_text(f)));
        i += 1;
    }
    assert(flags@.subrange(0, flags@.len() as int) =~= flags@);
    let sep = chars_of(" ");
    string_of(&join_chars(&parts, &sep))
}

/// Whole days between two Unix times, never negative.
pub open spec fn days_ago(unix: int, now: int) -> int {
    if now - unix > 0 {
        (now - unix) / 86400
    } else {
        0
    }
}

pub open spec fn ago_text(days: int) -> Seq<char> {
    if days == 0 {
        "today"@
    } else if days == 1 {
        "1d ago"@
    } else if days < 60 {
        dec(days as nat) + "d ago"@
    } else {
        dec((days / 30) as nat) + "mo ago"@
    }
}

/// How long ago `unix` was at `now`: "today", "1d ago", "<d>d ago" below
/// sixty days, then "<m>mo ago" in thirty-day months.
pub fn ago_at(unix: i64, now: i64) -> (r: String)
    ensures
        r@ == ago_text(days_ago(unix as int, now as int)),
{
    let diff: i128 = now as i128 - unix as i128;
    let days: i128 = if diff > 0 {
        diff / 86400
    } else {
        0
    };
    assert(0 <= days <= 0x1_0000_0000_0000_0000i128);
    let mut v: Vec<char> = Vec::new();
    if days == 0 {
        extend_str(&mut v, "today");
    } else if days == 1 {
        extend_str(&mut v, "1d ago");
    } else if days < 60 {
        push_dec(&mut v, days as u64);
        extend_str(&mut v, "d ago");
    } else {
        let months: i128 = days / 30;
        push_dec(&mut v, months as u64);
        extend_str(&mut v, "mo ago");
    }
    string_of(&v)
}

/// How long ago `unix` was, by the current clock.
pub fn ago(unix: i64) -> (r: String)
    ensures
        exists|now: i64| r@ == ago_text(days_ago(unix as int, now as int)),
{
    let now = crate::scan::now_unix();
    ago_at(unix, now)
}

/// At most `max` characters; longer text keeps `max - 1` and gains `…`.
pub fn truncate(s: &str, max: usize) -> (r: String)
    requires
        max > 0 || s@.len() == 0,
    ensures
        r@ == clip(s@, max as nat),
{
    let c = chars_of(s);
    if c.len() <= max {
        return String::from_str(s);
    }
    string_of(&clip_chars(&c, max))
}

pub fn char_lists(v: &Vec<String>) -> (r: Vec<Vec<char>>)
    ensures
        r.deep_view() == strings_view(v@),
{
    let mut r: Vec<Vec<char>> = Vec::new();
    let mut i: usize = 0;
    while i < v.len()
        invariant
            i <= v@.len(),
            r.deep_view() == strings_view(v@).subrange(0, i as int),
        decreases v.len() - i,
    {
        let c = chars_of(v[i].as_str());
        proof {
            lemma_char_vec_deep(c);
        }
        let ghost before = r.deep_view();
        r.push(c);
        assert(r.deep_view() =~= before.push(v@[i as int]@));
        assert(r.deep_view() =~= strings_view(v@).subrange(0, i + 1));
        i += 1;
    }
    assert(strings_view(v@).subrange(0, v@.len() as int) =~= strings_view(v@));
    r
}

// ---------------------------------------------------------------------
// The status table
// ---------------------------------------------------------------------

pub open spec fn branch_of(g: Option<GitInfoView>) -> Seq<char> {
    match g {
        Some(g) => match g.branch {
            Some(b) => b,
            None => Seq::empty(),
        },
        None => Seq::empty(),
    }
}

pub open spec fn dirty_text(g: Option<GitInfoView>) -> Seq<char> {
    match g {
        Some(g) => match g.dirty_files {
            Some(d) => dec(d as nat),
            None => "-"@,
        },
        None => "-"@,
    }
}

pub open spec fn table_header_text() -> Seq<char> {
    pad_right("PROJECT"@, 28) + " "@ + pad_right("STATE"@, 8) + " "@ + pad_right("LANGS"@, 12) + " "@
        + pad_right("BRANCH"@, 24) + " "@ + pad_left("DIRTY"@, 5) + " "@ + pad_left("TOUCHED"@, 8)
        + "  FLAGS"@
}

/// One row: name, state, languages, branch (cut to 24), dirty count,
/// how long ago it was touched, flags.
pub open spec fn table_row_text(p: ProjectView, now: int) -> Seq<char> {
    pad_right(p.name, 28) + " "@ + pad_right(activity_text(p.activity), 8) + " "@ + pad_right(
        join(p.languages, ","@),
        12,
    ) + " "@ + pad_right(clip(branch_of(p.git), 24), 24) + " "@ + pad_left(dirty_text(p.git), 5) + " "@
        + pad_left(ago_text(days_ago(p.last_touched_unix as int, now)), 8) + "  "@ + flags_text(p.health)
}

fn push_str_padded_right(v: &mut Vec<char>, s: &str, w: usize)
    ensures
        final(v)@ == old(v)@ + pad_right(s@, w as nat),
{
    let c = chars_of(s);
    push_pad_right(v, &c, w);
}

fn push_str_padded_left(v: &mut Vec<char>, s: &str, w: usize)
    ensures
        final(v)@ == old(v)@ + pad_left(s@, w as nat),
{
    let c = chars_of(s);
    push_pad_left(v, &c, w);
}

pub fn table_header() -> (r: String)
    ensures
        r@ == table_header_text(),
{
    let mut v: Vec<char> = Vec::new();
    push_str_padded_right(&mut v, "PROJECT", 28);
    extend_str(&mut v, " ");
    push_str_padded_right(&mut v, "STATE", 8);
    extend_str(&mut v, " ");
    push_str_padded_right(&mut v, "LANGS", 12);
    extend_str(&mut v, " ");
    push_str_padded_right(&mut v, "BRANCH", 24);
    extend_str(&mut v, " ");
    push_str_padded_left(&mut v, "DIRTY", 5);
    extend_str(&mut v, " ");
    push_str_padded_left(&mut v, "TOUCHED", 8);
    extend_str(&mut v, "  FLAGS");
    assert(v@ =~= table_header_text());
    string_of(&v)
}

pub fn table_row(p: &Project, now: i64) -> (r: String)
    ensures
        r@ == table_row_text(p@, now as int),
{
    let mut v: Vec<char> = Vec::new();
    let ghost v0 = v@;
    push_str_padded_right(&mut v, p.name.as_str(), 28);
    extend_str(&mut v, " ");
    push_str_padded_right(&mut v, activity_str(p.activity), 8);
    extend_str(&mut v, " ");
    let langs = join_chars(&char_lists(&p.languages), &chars_of(","));
    push_pad_right(&mut v, &langs, 12);
    extend_str(&mut v, " ");
    let branch: Vec<char> = match &p.git {
        Some(g) => match &g.branch {
            Some(b) => chars_of(b.as_str()),
            None => Vec::new(),
        },
        None => Vec::new(),
    };
    assert(branch@ =~= branch_of(p@.git));
    let cut = if branch.len() <= 24 {
        branch
    } else {
        clip_chars(&branch, 24)
    };
    assert(cut@ =~= clip(branch_of(p@.git), 24));
    push_pad_right(&mut v, &cut, 24);
    extend_str(&mut v, " ");
    let mut dirty: Vec<char> = Vec::new();
    match &p.git {
        Some(g) => match g.dirty_files {
            Some(d) => push_dec(&mut dirty, d as u64),
            None => extend_str(&mut dirty, "-"),
        },
        None => extend_str(&mut dirty, "-"),
    }
    assert(dirty@ =~= dirty_text(p@.git));
    push_pad_left(&mut v, &dirty, 5);
    extend_str(&mut v, " ");
    let a = ago_at(p.last_touched_unix, now);
    push_str_padded_left(&mut v, a.as_str(), 8);
    extend_str(&mut v, "  ");
    let f = flags_str(&p.health);
    extend_str(&mut v, f.as_str());
    assert(v@ =~= table_row_text(p@, now as int));
    string_of(&v)
}

/// The status table: header, then a row per project in the given order.
pub fn status_table(projects: &Vec<Project>, now: i64) -> (r: Vec<String>)
    ensures
        strings_view(r@) == seq![table_header_text()] + projects_view(projects@).map_values(
            |p: ProjectView| table_row_text(p, now as int),
        ),
{
    let mut r: Vec<String> = Vec::new();
    r.push(table_header());
    let ghost rows = projects_view(projects@).map_values(|p: ProjectView| table_row_text(p, now as int));
    let mut i: usize = 0;
    while i < projects.len()
        invariant
            i <= projects@.len(),
            rows == projects_view(projects@).map_values(|p: ProjectView| table_row_text(p, now as int)),
            strings_view(r@) == seq![table_header_text()] + rows.subrange(0, i as int),
        decreases projects.len() - i,
    {
        let ghost before = strings_view(r@);
        r.push(table_row(&projects[i], now));
        assert(strings_view(r@) =~= before.push(table_row_text(projects@[i as int]@, now as int)));
        assert(rows[i as int] == table_row_text(projects@[i as int]@, now as int));
        assert(strings_view(r@) =~= seq![table_header_text()] + rows.subrange(0, i + 1));
        i += 1;
    }
    assert(rows.subrange(0, rows.len() as int) =~= rows);
    r
}

// ---------------------------------------------------------------------
// The rot check
// ---------------------------------------------------------------------

/// The flagged projects, in order.
pub open spec fn flagged(ps: Seq<ProjectView>) -> Seq<ProjectView>
    decreases ps.len(),
{
    if ps.len() == 0 {
        Seq::empty()
    } else {
        let r = flagged(ps.drop_last());
        if ps.last().health.len() > 0 {
            r.push(ps.last())
        } else {
            r
        }
    }
}

pub open spec fn health_line_text(p: ProjectView) -> Seq<char> {
    pad_right(p.name, 28) + " "@ + flags_text(p.health)
}

/// The rot check: one line per flagged project, or the all-clear.
pub open spec fn health_report_text(ps: Seq<ProjectView>) -> Seq<Seq<char>> {
    if flagged(ps).len() == 0 {
        seq!["all clear — nothing rotting"@]
    } else {
        flagged(ps).map_values(|p: ProjectView| health_line_text(p))
    }
}

pub fn health_report(projects: &Vec<Project>) -> (r: Vec<String>)
    ensures
        strings_view(r@) == health_report_text(projects_view(projects@)),
{
    let ghost pv = projects_view(projects@);
    let mut r: Vec<String> = Vec::new();
    let mut i: usize = 0;
    while i < projects.len()
        invariant
            i <= projects@.len(),
            pv == projects_view(projects@),
            strings_view(r@) == flagged(pv.subrange(0, i as int)).map_values(|p: ProjectView| health_line_text(p)),
        decreases projects.len() - i,
    {
        assert(pv.subrange(0, i + 1).drop_last() =~= pv.subrange(0, i as int));
        assert(pv.subrange(0, i + 1).last() == projects@[i as int]@);
        if projects[i].health.len() > 0 {
            let mut v: Vec<char> = Vec::new();
            push_str_padded_right(&mut v, projects[i].name.as_str(), 28);
            extend_str(&mut v, " ");
            let f = flags_str(&projects[i].health);
            extend_str(&mut v, f.as_str());
            assert(v@ =~= health_line_text(projects@[i as int]@));
            let ghost before = strings_view(r@);
            r.push(string_of(&v));
            assert(strings_view(r@) =~= before.push(health_line_text(projects@[i as int]@)));
            assert(strings_view(r@) =~= flagged(pv.subrange(0, i + 1)).map_values(
                |p: ProjectView| health_line_text(p),
            ));
        }
        i += 1;
    }
    assert(pv.subrange(0, pv.len() as int) =~= pv);
    if r.len() == 0 {
        r.push(String::from_str("all clear — nothing rotting"));
        assert(strings_view(r@) =~= seq!["all clear — nothing rotting"@]);
    }
    r
}

// ---------------------------------------------------------------------
// The colony table
// ---------------------------------------------------------------------

/// Installed: any of checkout, binary, or a port that answered.
pub open spec fn installed(s: SiblingView) -> bool {
    s.checkout is Some || s.binary is Some || s.live == Some(true)
}

pub open spec fn surface_text(s: SiblingSurface) -> Seq<char> {
    match s {
        SiblingSurface::WebUi => "web ui"@,
        SiblingSurface::HttpApi => "api"@,
        SiblingSurface::Mcp => "mcp"@,
        SiblingSurface::Cli => "cli"@,
        SiblingSurface::Native => "native"@,
        SiblingSurface::NoRuntime => "—"@,
    }
}

pub open spec fn how_text(s: SiblingView) -> Seq<char> {
    match (s.checkout, s.binary) {
        (Some(_), Some(_)) => "checkout+bin"@,
        (Some(_), None) => "checkout"@,
        (None, Some(_)) => "binary"@,
        (None, None) => if s.live == Some(true) {
            "port only"@
        } else {
            "—"@
        },
    }
}

pub open spec fn live_text(l: Option<bool>) -> Seq<char> {
    match l {
        Some(true) => "up"@,
        Some(false) => "down"@,
        None => "·"@,
    }
}

/// How to reach it: the URL (or the bare API port), the MCP name, and only
/// when neither exists the binary; a sibling not here points to its lander.
pub open spec fn reach_parts(s: SiblingView) -> Seq<Seq<char>> {
    if installed(s) {
        let first: Seq<Seq<char>> = match s.url {
            Some(u) => seq![u],
            None => match s.port {
                Some(p) => seq!["http://127.0.0.1:"@ + dec(p as nat) + " (api)"@],
                None => Seq::empty(),
            },
        };
        let with_mcp = match s.mcp {
            Some(m) => first.push("mcp: "@ + m),
            None => first,
        };
        if with_mcp.len() == 0 {
            match s.binary {
                Some(b) => seq![b],
                None => with_mcp,
            }
        } else {
            with_mcp
        }
    } else {
        seq!["not here → "@ + s.lander]
    }
}

pub open spec fn reach_text(s: SiblingView) -> Seq<char> {
    if reach_parts(s).len() == 0 {
        "—"@
    } else {
        join(reach_parts(s), " · "@)
    }
}

pub open spec fn colony_header_text() -> Seq<char> {
    pad_right("SIBLING"@, 20) + " "@ + pad_right("SURFACE"@, 8) + " "@ + pad_right("INSTALLED"@, 14) + " "@
        + pad_right("LIVE"@, 6) + " REACH"@
}

pub open spec fn colony_row_text(s: SiblingView) -> Seq<char> {
    pad_right(s.name, 20) + " "@ + pad_right(surface_text(s.surface), 8) + " "@ + pad_right(how_text(s), 14)
        + " "@ + pad_right(live_text(s.live), 6) + " "@ + reach_text(s)
}

fn surface_str(s: SiblingSurface) -> (r: &'static str)
    ensures
        r@ == surface_text(s),
{
    match s {
        SiblingSurface::WebUi => "web ui",
        SiblingSurface::HttpApi => "api",
        SiblingSurface::Mcp => "mcp",
        SiblingSurface::Cli => "cli",
        SiblingSurface::Native => "native",
        SiblingSurface::NoRuntime => "—",
    }
}

fn how_str(s: &Sibling) -> (r: &'static str)
    ensures
        r@ == how_text(s@),
{
    match (&s.checkout, &s.binary) {
        (Some(_), Some(_)) => "checkout+bin",
        (Some(_), None) => "checkout",
        (None, Some(_)) => "binary",
        (None, None) => if s.live == Some(true) {
            "port only"
        } else {
            "—"
        },
    }
}

fn live_str(l: Option<bool>) -> (r: &'static str)
    ensures
        r@ == live_text(l),
{
    match l {
        Some(true) => "up",
        Some(false) => "down",
        None => "·",
    }
}

fn reach_list(s: &Sibling) -> (r: Vec<Vec<char>>)
    ensures
        r.deep_view() == reach_parts(s@),
{
    let mut parts: Vec<Vec<char>> = Vec::new();
    let inst = s.checkout.is_some() || s.binary.is_some() || s.live == Some(true);
    if inst {
        match &s.url {
            Some(u) => {
                let c = chars_of(u.as_str());
                proof {
                    lemma_char_vec_deep(c);
                }
                parts.push(c);
            },
            None => match s.port {
                Some(p) => {
                    let mut c: Vec<char> = Vec::new();
                    extend_str(&mut c, "http://127.0.0.1:");
                    push_dec(&mut c, p as u64);
                    extend_str(&mut c, " (api)");
                    proof {
                        lemma_char_vec_deep(c);
                    }
                    parts.push(c);
                },
                None => {},
            },
        }
        let ghost first = parts.deep_view();
        match &s.mcp {
            Some(m) => {
                let mut c: Vec<char> = Vec::new();
                extend_str(&mut c, "mcp: ");
                extend_str(&mut c, m.as_str());
                proof {
                    lemma_char_vec_deep(c);
                }
                parts.push(c);
                assert(parts.deep_view() =~= first.push("mcp: "@ + m@));
            },
            None => {},
        }
        if parts.len() == 0 {
            match &s.binary {
                Some(b) => {
                    let c = chars_of(b.as_str());
                    proof {
                        lemma_char_vec_deep(c);
                    }
                    parts.push(c);
                },
                None => {},
            }
        }
    } else {
        let mut c: Vec<char> = Vec::new();
        extend_str(&mut c, "not here → ");
        extend_str(&mut c, s.lander.as_str());
        proof {
            lemma_char_vec_deep(c);
        }
        parts.push(c);
    }
    assert(parts.deep_view() =~= reach_parts(s@));
    parts
}

pub fn colony_header() -> (r: String)
    ensures
        r@ == colony_header_text(),
{
    let mut v: Vec<char> = Vec::new();
    push_str_padded_right(&mut v, "SIBLING", 20);
    extend_str(&mut v, " ");
    push_str_padded_right(&mut v, "SURFACE", 8);
    extend_str(&mut v, " ");
    push_str_padded_right(&mut v, "INSTALLED", 14);
    extend_str(&mut v, " ");
    push_str_padded_right(&mut v, "LIVE", 6);
    extend_str(&mut v, " REACH");
    assert(v@ =~= colony_header_text());
    string_of(&v)
}

pub fn colony_row(s: &Sibling) -> (r: String)
    ensures
        r@ == colony_row_text(s@),
{
    let mut v: Vec<char> = Vec::new();
    push_str_padded_right(&mut v, s.name.as_str(), 20);
    extend_str(&mut v, " ");
    push_str_padded_right(&mut v, surface_str(s.surface), 8);
    extend_str(&mut v, " ");
    push_str_padded_right(&mut v, how_str(s), 14);
    extend_str(&mut v, " ");
    push_str_padded_right(&mut v, live_str(s.live), 6);
    extend_str(&mut v, " ");
    let parts = reach_list(s);
    if parts.len() == 0 {
        extend_str(&mut v, "—");
    } else {
        let j = join_chars(&parts, &chars_of(" · "));
        extend_chars(&mut v, &j);
    }
    assert(v@ =~= colony_row_text(s@));
    string_of(&v)
}

/// The colony table: header, then a row per sibling.
pub fn colony_table(colony: &ColonyStatus) -> (r: Vec<String>)
    ensures
        strings_view(r@) == seq![colony_header_text()] + crate::colony::siblings_view(colony.siblings@).map_values(
            |s: SiblingView| colony_row_text(s),
        ),
{
    let ghost rows = crate::colony::siblings_view(colony.siblings@).map_values(|s: SiblingView| colony_row_text(s));
    let mut r: Vec<String> = Vec::new();
    r.push(colony_header());
    let mut i: usize = 0;
    while i < colony.siblings.len()
        invariant
            i <= colony.siblings@.len(),
            rows == crate::colony::siblings_view(colony.siblings@).map_values(|s: SiblingView| colony_row_text(s)),
            strings_view(r@) == seq![colony_header_text()] + rows.subrange(0, i as int),
        decreases colony.siblings.len() - i,
    {
        let ghost before = strings_view(r@);
        r.push(colony_row(&colony.siblings[i]));
        assert(strings_view(r@) =~= before.push(colony_row_text(colony.siblings@[i as int]@)));
        assert(rows[i as int] == colony_row_text(colony.siblings@[i as int]@));
        assert(strings_view(r@) =~= seq![colony_header_text()] + rows.subrange(0, i + 1));
        i += 1;
    }
    assert(rows.subrange(0, rows.len() as int) =~= rows);
    r
}

// ---------------------------------------------------------------------
// Search hits
// ---------------------------------------------------------------------

/// A query of nothing but whitespace is not searched.
pub fn query_is_blank(query: &str) -> (r: bool)
    ensures
        r == (trim(Trim::Whitespace, query@).len() == 0),
{
    trim_chars(Trim::Whitespace, &chars_of(query)).len() == 0
}

/// Where a hit is: `commit <id>`, `<path>:<line>`, or the path.
pub open spec fn hit_location(kind: Seq<char>, path: Seq<char>, line: Option<u32>) -> Seq<char> {
    if kind == "commit"@ {
        "commit "@ + path
    } else {
        match line {
            Some(l) => path + ":"@ + dec(l as nat),
            None => path,
        }
    }
}

/// A hit's two lines: project, kind and location; then the snippet under
/// a tree mark.
pub open spec fn hit_lines_text(project: Seq<char>, kind: Seq<char>, path: Seq<char>, line: Option<u32>, snippet: Seq<char>) -> (Seq<char>, Seq<char>) {
    (
        pad_right(project, 24) + " "@ + pad_right(kind, 6) + " "@ + hit_location(kind, path, line),
        pad_right(Seq::empty(), 24) + " "@ + pad_right(Seq::empty(), 6) + " └ "@ + snippet,
    )
}

pub fn hit_lines(project: &str, kind: &str, path: &str, line: Option<u32>, snippet: &str) -> (r: (String, String))
    ensures
        (r.0@, r.1@) == hit_lines_text(project@, kind@, path@, line, snippet@),
{
    let mut loc: Vec<char> = Vec::new();
    if crate::text::str_eq(kind, "commit") {
        extend_str(&mut loc, "commit ");
        extend_str(&mut loc, path);
    } else {
        extend_str(&mut loc, path);
        match line {
            Some(l) => {
                extend_str(&mut loc, ":");
                push_dec(&mut loc, l as u64);
            },
            None => {},
        }
    }
    assert(loc@ =~= hit_location(kind@, path@, line));
    let mut a: Vec<char> = Vec::new();
    push_str_padded_right(&mut a, project, 24);
    extend_str(&mut a, " ");
    push_str_padded_right(&mut a, kind, 6);
    extend_str(&mut a, " ");
    extend_chars(&mut a, &loc);
    let mut b: Vec<char> = Vec::new();
    push_str_padded_right(&mut b, "", 24);
    extend_str(&mut b, " ");
    push_str_padded_right(&mut b, "", 6);
    extend_str(&mut b, " └ ");
    extend_str(&mut b, snippet);
    proof {
        reveal_strlit("");
    }
    assert(a@ =~= hit_lines_text(project@, kind@, path@, line, snippet@).0);
    assert(b@ =~= hit_lines_text(project@, kind@, path@, line, snippet@).1);
    (string_of(&a), string_of(&b))
}

/// `nothing found for "<query>"`.
pub fn nothing_found(query: &str) -> (r: String)
    ensures
        r@ == "nothing found for \""@ + query@ + "\""@,
{
    let mut v: Vec<char> = Vec::new();
    extend_str(&mut v, "nothing found for \"");
    extend_str(&mut v, query);
    extend_str(&mut v, "\"");
    string_of(&v)
}

// ---------------------------------------------------------------------
// The timeline
// ---------------------------------------------------------------------

/// Local calendar facts of an instant at some offset from UTC.
#[derive(Clone, Copy, Debug, PartialEq, Eq)]
pub struct LocalStamp {
    /// Day number of the local date (0001-01-01 is day 1).
    pub days: i64,
    /// 0 = Monday … 6 = Sunday.
    pub weekday: u32,
    pub day: u32,
    pub month: u32,
    pub hour: u32,
    pub minute: u32,
}

/// What chrono gives for the local date and time of the instant `unix` at
/// `offset` seconds east of UTC.
pub uninterp spec fn chrono_stamp(unix: i64, offset: i32) -> Option<LocalStamp>;

/// The day of the month and the month of the date `n` days after
/// 1970-01-01 in the proleptic Gregorian calendar (400-year eras of 146097
/// days, years counted from March).
pub open spec fn civil_day_month(n: int) -> (int, int) {
    let z = n + 719468;
    let era = z / 146097;
    let doe = z - era * 146097;
    let yoe = (doe - doe / 1460 + doe / 36524 - doe / 146096) / 365;
    let doy = doe - (365 * yoe + yoe / 4 - yoe / 100);
    let mp = (5 * doy + 2) / 153;
    (doy - (153 * mp + 2) / 5 + 1, if mp < 10 {
        mp + 3
    } else {
        mp - 9
    })
}

/// The calendar facts of the local time `l` (seconds since the epoch,
/// already shifted by the offset): 1970-01-01 is day 719163 of the common
/// era and a Thursday.
pub open spec fn stamp_fits(s: LocalStamp, l: int) -> bool {
    &&& s.days == l / 86400 + 719163
    &&& s.weekday == (l / 86400 + 3) % 7
    &&& s.hour == (l % 86400) / 3600
    &&& s.minute == (l % 3600) / 60
    &&& s.day == civil_day_month(l / 86400).0
    &&& s.month == civil_day_month(l / 86400).1
    &&& 1 <= s.day <= 31
    &&& 1 <= s.month <= 12
}

/// `chrono::DateTime::from_timestamp(unix, 0)` as a naive UTC date and
/// time, moved by `FixedOffset::east_opt(offset)` with
/// `NaiveDateTime::checked_add_offset`, and the date and time fields of the
/// result. `None` when the instant or the moved time is outside chrono's
/// range, or the offset is a whole day or more; no step panics. The result
/// depends on the two numbers alone; the claims are the calendar facts of
/// the local time `unix + offset`, and that instants within 2^40 seconds of
/// the epoch are in range.
#[verifier::external_body]
pub(crate) fn local_stamp_at(unix: i64, offset: i32) -> (r: Option<LocalStamp>)
    ensures
        r == chrono_stamp(unix, offset),
        match r {
            Some(s) => stamp_fits(s, unix + offset),
            None => true,
        },
        (-86400 < offset < 86400 && -0x100_0000_0000 <= unix <= 0x100_0000_0000) ==> r is Some,
{
    match (chrono::DateTime::from_timestamp(unix, 0), chrono::FixedOffset::east_opt(offset)) {
        (Some(dt), Some(off)) => dt.naive_utc().checked_add_offset(off).map(|l| LocalStamp {
            days: l.date().num_days_from_ce() as i64,
            weekday: l.weekday().num_days_from_monday(),
            day: l.day(),
            month: l.month(),
            hour: l.hour(),
            minute: l.minute(),
        }),
        _ => None,
    }
}

/// The local stamps of the entries' instants at the given offsets.
pub open spec fn stamps_at(
    es: Seq<(Seq<char>, crate::protocol::CommitSummaryView)>,
    offs: Seq<i32>,
) -> Seq<Option<LocalStamp>> {
    Seq::new(es.len(), |i: int| chrono_stamp(es[i].1.time_unix, offs[i]))
}

/// `offs` holds, for each entry, an offset the time zone gives for its instant.
pub open spec fn zone_gives<F: Fn(i64) -> i32>(
    zone: F,
    es: Seq<(Seq<char>, crate::protocol::CommitSummaryView)>,
    offs: Seq<i32>,
) -> bool {
    &&& offs.len() == es.len()
    &&& forall|i: int| 0 <= i < es.len() ==> #[trigger] zone.ensures((es[i].1.time_unix,), offs[i])
}

/// Today's day number at clock time `now`, where the zone is `offset`
/// seconds east of UTC (0 when chrono has no local date for it).
pub open spec fn today_at(now: i64, offset: i32) -> i64 {
    match chrono_stamp(now, offset) {
        Some(s) => s.days,
        None => 0,
    }
}

/// The local stamp of each entry's instant, in the time zone `zone`
/// (offset in seconds east of UTC for an instant).
pub fn local_stamps<F: Fn(i64) -> i32>(
    entries: &Vec<(String, crate::protocol::CommitSummary)>,
    zone: &F,
) -> (r: Vec<Option<LocalStamp>>)
    requires
        forall|t: i64| zone.requires((t,)),
    ensures
        exists|offs: Seq<i32>|
            zone_gives(*zone, entries_view(entries@), offs) && r@ == stamps_at(entries_view(entries@), offs),
{
    let ghost ev = entries_view(entries@);
    let ghost mut offs: Seq<i32> = Seq::empty();
    let mut r: Vec<Option<LocalStamp>> = Vec::new();
    let mut i: usize = 0;
    while i < entries.len()
        invariant
            i <= entries@.len(),
            ev == entries_view(entries@),
            forall|t: i64| zone.requires((t,)),
            offs.len() == i,
            r@.len() == i,
            forall|k: int| 0 <= k < i ==> #[trigger] zone.ensures((ev[k].1.time_unix,), offs[k]),
            forall|k: int| 0 <= k < i ==> #[trigger] r@[k] == chrono_stamp(ev[k].1.time_unix, offs[k]),
        decreases entries.len() - i,
    {
        let t = entries[i].1.time_unix;
        let off = zone(t);
        r.push(local_stamp_at(t, off));
        proof {
            offs = offs.push(off);
        }
        i += 1;
    }
    assert(r@ =~= stamps_at(ev, offs));
    assert(zone_gives(*zone, ev, offs));
    r
}

pub open spec fn weekday_name(w: u32) -> Seq<char> {
    if w == 0 {
        "Mon"@
    } else if w == 1 {
        "Tue"@
    } else if w == 2 {
        "Wed"@
    } else if w == 3 {
        "Thu"@
    } else if w == 4 {
        "Fri"@
    } else if w == 5 {
        "Sat"@
    } else {
        "Sun"@
    }
}

pub open spec fn month_name(m: u32) -> Seq<char> {
    if m == 1 {
        "Jan"@
    } else if m == 2 {
        "Feb"@
    } else if m == 3 {
        "Mar"@
    } else if m == 4 {
        "Apr"@
    } else if m == 5 {
        "May"@
    } else if m == 6 {
        "Jun"@
    } else if m == 7 {
        "Jul"@
    } else if m == 8 {
        "Aug"@
    } else if m == 9 {
        "Sep"@
    } else if m == 10 {
        "Oct"@
    } else if m == 11 {
        "Nov"@
    } else {
        "Dec"@
    }
}

pub(crate) fn weekday_str(w: u32) -> (r: &'static str)
    ensures
        r@ == weekday_name(w),
{
    if w == 0 {
        "Mon"
    } else if w == 1 {
        "Tue"
    } else if w == 2 {
        "Wed"
    } else if w == 3 {
        "Thu"
    } else if w == 4 {
        "Fri"
    } else if w == 5 {
        "Sat"
    } else {
        "Sun"
    }
}

pub(crate) fn month_str(m: u32) -> (r: &'static str)
    ensures
        r@ == month_name(m),
{
    if m == 1 {
        "Jan"
    } else if m == 2 {
        "Feb"
    } else if m == 3 {
        "Mar"
    } else if m == 4 {
        "Apr"
    } else if m == 5 {
        "May"
    } else if m == 6 {
        "Jun"
    } else if m == 7 {
        "Jul"
    } else if m == 8 {
        "Aug"
    } else if m == 9 {
        "Sep"
    } else if m == 10 {
        "Oct"
    } else if m == 11 {
        "Nov"
    } else {
        "Dec"
    }
}

/// `%H`, `%M`: two digits, zero-padded.
pub open spec fn two_digits(n: u32) -> Seq<char> {
    if n < 10 {
        "0"@ + dec(n as nat)
    } else {
        dec(n as nat)
    }
}

pub open spec fn clock_text(s: LocalStamp) -> Seq<char> {
    two_digits(s.hour) + ":"@ + two_digits(s.minute)
}

fn push_two_digits(v: &mut Vec<char>, n: u32)
    ensures
        final(v)@ == old(v)@ + two_digits(n),
{
    if n < 10 {
        extend_str(v, "0");
    }
    push_dec(v, n as u64);
}

pub(crate) fn push_clock(v: &mut Vec<char>, s: LocalStamp)
    ensures
        final(v)@ == old(v)@ + clock_text(s),
{
    push_two_digits(v, s.hour);
    extend_str(v, ":");
    push_two_digits(v, s.minute);
}

/// The heading of a day: "today", "yesterday", else weekday, day, month.
pub open spec fn day_label(today: i64, s: LocalStamp) -> Seq<char> {
    if today as int - s.days as int == 0 {
        "today"@
    } else if today as int - s.days as int == 1 {
        "yesterday"@
    } else {
        weekday_name(s.weekday) + " "@ + dec(s.day as nat) + " "@ + month_name(s.month)
    }
}

pub open spec fn entry_line(project: Seq<char>, summary: Seq<char>, s: LocalStamp) -> Seq<char> {
    "  "@ + clock_text(s) + "  "@ + pad_right(project, 24) + " "@ + summary
}

/// Entries in order; an entry whose instant has no local form is skipped;
/// a blank line and a day heading open each new local day.
pub open spec fn timeline_walk(
    entries: Seq<(Seq<char>, crate::protocol::CommitSummaryView)>,
    stamps: Seq<Option<LocalStamp>>,
    today: i64,
    day: Option<i64>,
) -> Seq<Seq<char>>
    decreases entries.len(),
{
    if entries.len() == 0 || stamps.len() == 0 {
        Seq::empty()
    } else {
        match stamps[0] {
            None => timeline_walk(entries.drop_first(), stamps.drop_first(), today, day),
            Some(s) => {
                let head: Seq<Seq<char>> = if day != Some(s.days) {
                    seq![Seq::<char>::empty(), day_label(today, s)]
                } else {
                    Seq::empty()
                };
                head + seq![entry_line(entries[0].0, entries[0].1.summary, s)] + timeline_walk(
                    entries.drop_first(),
                    stamps.drop_first(),
                    today,
                    Some(s.days),
                )
            },
        }
    }
}

pub open spec fn timeline_text(
    entries: Seq<(Seq<char>, crate::protocol::CommitSummaryView)>,
    stamps: Seq<Option<LocalStamp>>,
    today: i64,
) -> Seq<Seq<char>> {
    if entries.len() == 0 {
        seq!["no commits in the timeline window"@]
    } else {
        timeline_walk(entries, stamps, today, None)
    }
}

/// The timeline's lines, given each entry's local stamp and today's day.
pub fn timeline_lines(entries: &Vec<(String, crate::protocol::CommitSummary)>, stamps: &Vec<Option<LocalStamp>>, today: i64) -> (r: Vec<String>)
    ensures
        strings_view(r@) == timeline_text(entries_view(entries@), stamps@, today),
{
    let ghost ev = entries_view(entries@);
    let mut r: Vec<String> = Vec::new();
    if entries.len() == 0 {
        r.push(String::from_str("no commits in the timeline window"));
        assert(strings_view(r@) =~= seq!["no commits in the timeline window"@]);
        return r;
    }
    let mut day: Option<i64> = None;
    let mut i: usize = 0;
    assert(ev.subrange(0, ev.len() as int) =~= ev);
    assert(stamps@.subrange(0, stamps@.len() as int) =~= stamps@);
    while i < entries.len() && i < stamps.len()
        invariant
            i <= entries@.len(),
            i <= stamps@.len(),
            ev == entries_view(entries@),
            ev.len() > 0,
            timeline_walk(ev, stamps@, today, None) == strings_view(r@) + timeline_walk(
                ev.subrange(i as int, ev.len() as int),
                stamps@.subrange(i as int, stamps@.len() as int),
                today,
                day,
            ),
        decreases entries.len() - i,
    {
        let ghost re = ev.subrange(i as int, ev.len() as int);
        let ghost rs = stamps@.subrange(i as int, stamps@.len() as int);
        assert(re.drop_first() =~= ev.subrange(i + 1, ev.len() as int));
        assert(rs.drop_first() =~= stamps@.subrange(i + 1, stamps@.len() as int));
        assert(re[0] == ev[i as int]);
        assert(rs[0] == stamps@[i as int]);
        match stamps[i] {
            None => {},
            Some(s) => {
                let ghost before = strings_view(r@);
                let new_day = match day {
                    Some(d) => d != s.days,
                    None => true,
                };
                if new_day {
                    r.push(String::new());
                    let mut l: Vec<char> = Vec::new();
                    let diff: i128 = today as i128 - s.days as i128;
                    if diff == 0 {
                        extend_str(&mut l, "today");
                    } else if diff == 1 {
                        extend_str(&mut l, "yesterday");
                    } else {
                        extend_str(&mut l, weekday_str(s.weekday));
                        extend_str(&mut l, " ");
                        push_dec(&mut l, s.day as u64);
                        extend_str(&mut l, " ");
                        extend_str(&mut l, month_str(s.month));
                    }
                    assert(l@ =~= day_label(today, s));
                    r.push(string_of(&l));
                    assert(strings_view(r@) =~= before + seq![Seq::<char>::empty(), day_label(today, s)]);
                }
                let ghost mid = strings_view(r@);
                let mut e: Vec<char> = Vec::new();
                extend_str(&mut e, "  ");
                push_clock(&mut e, s);
                extend_str(&mut e, "  ");
                push_str_padded_right(&mut e, entries[i].0.as_str(), 24);
                extend_str(&mut e, " ");
                extend_str(&mut e, entries[i].1.summary.as_str());
                assert(e@ =~= entry_line(ev[i as int].0, ev[i as int].1.summary, s));
                r.push(string_of(&e));
                assert(strings_view(r@) =~= mid.push(e@));
                day = Some(s.days);
            },
        }
        i += 1;
    }
    proof {
        let re = ev.subrange(i as int, ev.len() as int);
        let rs = stamps@.subrange(i as int, stamps@.len() as int);
        assert(re.len() == 0 || rs.len() == 0);
        assert(strings_view(r@) + Seq::<Seq<char>>::empty() =~= strings_view(r@));
    }
    r
}

/// Every commit of every project, paired with the project's name, in
/// project order.
pub open spec fn commit_entries(ps: Seq<ProjectView>) -> Seq<(Seq<char>, crate::protocol::CommitSummaryView)>
    decreases ps.len(),
{
    if ps.len() == 0 {
        Seq::empty()
    } else {
        commit_entries(ps.drop_last()) + match ps.last().git {
            Some(g) => g.recent_commits.map_values(|c: crate::protocol::CommitSummaryView| (ps.last().name, c)),
            None => Seq::empty(),
        }
    }
}

/// The timeline's entries: every commit with its project, newest first.
pub fn timeline_entries(projects: &Vec<Project>) -> (r: Vec<(String, crate::protocol::CommitSummary)>)
    ensures
        entries_view(r@) == sort_desc(commit_entries(projects_view(projects@)), by_entry_time()),
{
    sort_entries_desc(all_entries(projects))
}

/// Every commit with its project, in project order.
pub fn all_entries(projects: &Vec<Project>) -> (r: Vec<(String, crate::protocol::CommitSummary)>)
    ensures
        entries_view(r@) == commit_entries(projects_view(projects@)),
{
    let ghost pv = projects_view(projects@);
    let mut all: Vec<(String, crate::protocol::CommitSummary)> = Vec::new();
    let mut i: usize = 0;
    while i < projects.len()
        invariant
            i <= projects@.len(),
            pv == projects_view(projects@),
            entries_view(all@) == commit_entries(pv.subrange(0, i as int)),
        decreases projects.len() - i,
    {
        assert(pv.subrange(0, i + 1).drop_last() =~= pv.subrange(0, i as int));
        assert(pv.subrange(0, i + 1).last() == projects@[i as int]@);
        let ghost base = entries_view(all@);
        match &projects[i].git {
            Some(g) => {
                let ghost cs = crate::protocol::commits_view(g.recent_commits@);
                let mut j: usize = 0;
                while j < g.recent_commits.len()
                    invariant
                        i < projects@.len(),
                        j <= g.recent_commits@.len(),
                        cs == crate::protocol::commits_view(g.recent_commits@),
                        entries_view(all@) == base + cs.subrange(0, j as int).map_values(
                            |c: crate::protocol::CommitSummaryView| (projects@[i as int].name@, c),
                        ),
                    decreases g.recent_commits.len() - j,
                {
                    let ghost before = entries_view(all@);
                    all.push((crate::protocol::copy_string(&projects[i].name), crate::protocol::copy_commit(&g.recent_commits[j])));
                    assert(entries_view(all@) =~= before.push((projects@[i as int].name@, cs[j as int])));
                    assert(entries_view(all@) =~= base + cs.subrange(0, j + 1).map_values(
                        |c: crate::protocol::CommitSummaryView| (projects@[i as int].name@, c),
                    ));
                    j += 1;
                }
                assert(cs.subrange(0, cs.len() as int) =~= cs);
            },
            None => {
                assert(entries_view(all@) =~= base + Seq::<(Seq<char>, crate::protocol::CommitSummaryView)>::empty());
            },
        }
        i += 1;
    }
    assert(pv.subrange(0, pv.len() as int) =~= pv);
    all
}

/// "Where was I": the timeline as printed, by the clock and the time zone
/// `zone` (offset in seconds east of UTC for an instant). Whatever those
/// give, the lines are `timeline_text` of the sorted entries, each stamped
/// at an offset the zone gives for it, and today's date at the clock's time.
pub fn timeline<F: Fn(i64) -> i32>(projects: &Vec<Project>, zone: &F) -> (r: Vec<String>)
    requires
        forall|t: i64| zone.requires((t,)),
    ensures
        exists|offs: Seq<i32>, now: i64, off_now: i32|
            zone_gives(*zone, sort_desc(commit_entries(projects_view(projects@)), by_entry_time()), offs)
                && zone.ensures((now,), off_now) && strings_view(r@) == timeline_text(
                sort_desc(commit_entries(projects_view(projects@)), by_entry_time()),
                stamps_at(sort_desc(commit_entries(projects_view(projects@)), by_entry_time()), offs),
                today_at(now, off_now),
            ),
{
    let entries = timeline_entries(projects);
    let stamps = local_stamps(&entries, zone);
    let now = crate::scan::now_unix();
    let off_now = zone(now);
    let today: i64 = match local_stamp_at(now, off_now) {
        Some(s) => s.days,
        None => 0,
    };
    proof {
        crate::sort::lemma_sort_desc(commit_entries(projects_view(projects@)), by_entry_time());
    }
    let r = timeline_lines(&entries, &stamps, today);
    let ghost offs = choose|offs: Seq<i32>|
        zone_gives(*zone, entries_view(entries@), offs) && stamps@ == stamps_at(entries_view(entries@), offs);
    assert(zone_gives(*zone, sort_desc(commit_entries(projects_view(projects@)), by_entry_time()), offs)
        && zone.ensures((now,), off_now) && strings_view(r@) == timeline_text(
        sort_desc(commit_entries(projects_view(projects@)), by_entry_time()),
        stamps_at(sort_desc(commit_entries(projects_view(projects@)), by_entry_time()), offs),
        today_at(now, off_now),
    ));
    r
}

} // verus!
