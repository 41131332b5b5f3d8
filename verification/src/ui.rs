//! The native frontend's model: how a client folds the daemon's frames into
//! its project list, which projects a filter shows, the rows and the
//! timeline it renders, and the stats line. Reading only.

use vstd::prelude::*;

use crate::protocol::{copy_string, projects_view, Activity, Event, Project, ProjectView};
use crate::render::{
    activity_str, activity_text, ago_at, ago_text, branch_of, char_lists, days_ago, flags_str, flags_text,
    LocalStamp, chrono_stamp, clock_text, stamps_at, weekday_name, zone_gives,
};
use crate::sort::{by_entry_time, by_touched, entries_view, sort_desc, sort_projects_desc};
use crate::text::{chars_of, contains_chars, contains_seq, dec, extend_str, join, join_chars, lowercase, push_dec, string_of, to_lower};
use crate::watch::{
    lemma_first_with_path, placed, rescan_list, shows_same, without_path,
};

verus! {

// ---------------------------------------------------------------------
// Folding frames
// ---------------------------------------------------------------------

/// The list a client holds after a frame: a snapshot replaces it; a
/// changed project replaces the first one at its path (or joins) and the
/// list is sorted newest first; a removed path is dropped; colony frames
/// leave it alone.
pub open spec fn client_apply(ps: Seq<ProjectView>, e: Event) -> Seq<ProjectView> {
    match e {
        Event::Snapshot { projects } => projects_view(projects@),
        Event::ProjectChanged { project } => sort_desc(placed(ps, project@), by_touched()),
        Event::ProjectRemoved { path } => without_path(ps, path@),
        Event::Colony { .. } => ps,
    }
}

pub fn apply(projects: &mut Vec<Project>, event: Event)
    ensures
        projects_view(final(projects)@) == client_apply(projects_view(old(projects)@), event),
{
    let ghost ps = projects_view(projects@);
    let ghost ev = event;
    match event {
        Event::Snapshot { projects: fresh } => {
            *projects = fresh;
        },
        Event::ProjectChanged { project } => {
            let p: Project = *project;
            let mut i: usize = 0;
            while i < projects.len() && !crate::protocol::string_eq(&projects[i].path, &p.path)
                invariant
                    i <= projects@.len(),
                    ps == projects_view(projects@),
                    forall|q: int| 0 <= q < i ==> #[trigger] ps[q].path != p@.path,
                decreases projects.len() - i,
            {
                i += 1;
            }
            proof {
                if i < projects@.len() {
                    assert(ps[i as int] == projects@[i as int]@);
                }
                lemma_first_with_path(ps, p@.path, i as int);
            }
            if i < projects.len() {
                projects.set(i, p);
                assert(projects_view(projects@) =~= ps.update(i as int, ev->project@));
            } else {
                projects.push(p);
                assert(projects_view(projects@) =~= ps.push(ev->project@));
            }
            let mut tmp: Vec<Project> = Vec::new();
            std::mem::swap(&mut tmp, projects);
            *projects = sort_projects_desc(tmp);
        },
        Event::ProjectRemoved { path } => {
            let mut kept: Vec<Project> = Vec::new();
            let mut i: usize = 0;
            while i < projects.len()
                invariant
                    i <= projects@.len(),
                    ps == projects_view(projects@),
                    projects_view(kept@) == without_path(ps.subrange(0, i as int), path@),
                decreases projects.len() - i,
            {
                assert(ps.subrange(0, i + 1).drop_last() =~= ps.subrange(0, i as int));
                assert(ps.subrange(0, i + 1).last() == projects@[i as int]@);
                if !crate::protocol::string_eq(&projects[i].path, &path) {
                    let ghost before = projects_view(kept@);
                    kept.push(crate::protocol::copy_project(&projects[i]));
                    assert(projects_view(kept@) =~= before.push(projects@[i as int]@));
                }
                i += 1;
            }
            assert(ps.subrange(0, ps.len() as int) =~= ps);
            *projects = kept;
        },
        Event::Colony { .. } => {},
    }
}

proof fn lemma_without_path_same_len(ps: Seq<ProjectView>, path: Seq<char>)
    ensures
        without_path(ps, path).len() <= ps.len(),
        without_path(ps, path).len() == ps.len() ==> without_path(ps, path) == ps,
    decreases ps.len(),
{
    if ps.len() > 0 {
        lemma_without_path_same_len(ps.drop_last(), path);
        if without_path(ps, path).len() == ps.len() {
            assert(ps.drop_last().push(ps.last()) =~= ps);
        }
    }
}

/// Clients never need replay logic: a client holding the daemon's list
/// that applies the frame the daemon sends after a rescan holds the
/// daemon's new list; when no frame is sent, the daemon's list did not
/// change.
pub proof fn law_clients_follow_daemon(ps: Seq<ProjectView>, dir: String, scanned: Option<Project>)
    ensures
        match scanned {
            Some(p) => if shows_same(ps, p@) {
                rescan_list(ps, dir@, Some(p@)) == ps
            } else {
                client_apply(ps, (Event::ProjectChanged { project: Box::new(p) })) == rescan_list(ps, dir@, Some(p@))
            },
            None => if without_path(ps, dir@).len() == ps.len() {
                rescan_list(ps, dir@, None) == ps
            } else {
                client_apply(ps, (Event::ProjectRemoved { path: dir })) == rescan_list(ps, dir@, None)
            },
        },
{
    lemma_without_path_same_len(ps, dir@);
}

// ---------------------------------------------------------------------
// Filtering and rows
// ---------------------------------------------------------------------

/// A project is shown when the (lowercased) filter is empty or occurs in
/// its lowercased name, its lowercased tagline, or its languages joined by
/// spaces.
pub open spec fn shown(p: ProjectView, filter: Seq<char>) -> bool {
    filter.len() == 0 || contains_seq(lowercase(p.name), filter) || contains_seq(
        lowercase(
            match p.tagline {
                Some(t) => t,
                None => Seq::empty(),
            },
        ),
        filter,
    ) || contains_seq(join(p.languages, " "@), filter)
}

pub fn is_shown(p: &Project, filter: &str) -> (r: bool)
    ensures
        r == shown(p@, filter@),
{
    let f = chars_of(filter);
    if f.len() == 0 {
        return true;
    }
    let name = chars_of(to_lower(p.name.as_str()).as_str());
    if contains_chars(&name, &f) {
        return true;
    }
    let tsrc: String = match &p.tagline {
        Some(t) => copy_string(t),
        None => String::new(),
    };
    assert(tsrc@ =~= match p@.tagline {
        Some(t) => t,
        None => Seq::<char>::empty(),
    });
    let tag = to_lower(tsrc.as_str());
    let tagc = chars_of(tag.as_str());
    if contains_chars(&tagc, &f) {
        return true;
    }
    let langs = join_chars(&char_lists(&p.languages), &chars_of(" "));
    contains_chars(&langs, &f)
}

/// One row of the project list.
#[derive(Clone, Debug)]
pub struct ProjectItem {
    pub name: String,
    pub tagline: String,
    pub activity: String,
    pub branch: String,
    pub dirty: i32,
    pub ago: String,
    pub langs: String,
    pub flags: String,
}

pub struct ProjectItemView {
    pub name: Seq<char>,
    pub tagline: Seq<char>,
    pub activity: Seq<char>,
    pub branch: Seq<char>,
    pub dirty: i32,
    pub ago: Seq<char>,
    pub langs: Seq<char>,
    pub flags: Seq<char>,
}

impl View for ProjectItem {
    type V = ProjectItemView;

    open spec fn view(&self) -> ProjectItemView {
        ProjectItemView {
            name: self.name@,
            tagline: self.tagline@,
            activity: self.activity@,
            branch: self.branch@,
            dirty: self.dirty,
            ago: self.ago@,
            langs: self.langs@,
            flags: self.flags@,
        }
    }
}

pub open spec fn dirty_count(p: ProjectView) -> u32 {
    match p.git {
        Some(g) => match g.dirty_files {
            Some(d) => d,
            None => 0,
        },
        None => 0,
    }
}

pub open spec fn project_item_spec(p: ProjectView, now: int) -> ProjectItemView {
    ProjectItemView {
        name: p.name,
        tagline: match p.tagline {
            Some(t) => t,
            None => Seq::empty(),
        },
        activity: activity_text(p.activity),
        branch: branch_of(p.git),
        dirty: dirty_count(p) as i32,
        ago: ago_text(days_ago(p.last_touched_unix as int, now)),
        langs: join(p.languages, " · "@),
        flags: flags_text(p.health),
    }
}

/// The row for a project at clock time `now`.
pub fn project_item(p: &Project, now: i64) -> (r: ProjectItem)
    ensures
        r@ == project_item_spec(p@, now as int),
{
    let branch = match &p.git {
        Some(g) => match &g.branch {
            Some(b) => copy_string(b),
            None => String::new(),
        },
        None => String::new(),
    };
    let d: u32 = match &p.git {
        Some(g) => match g.dirty_files {
            Some(d) => d,
            None => 0,
        },
        None => 0,
    };
    let langs = join_chars(&char_lists(&p.languages), &chars_of(" · "));
    ProjectItem {
        name: copy_string(&p.name),
        tagline: match &p.tagline {
            Some(t) => copy_string(t),
            None => String::new(),
        },
        activity: String::from_str(activity_str(p.activity)),
        branch,
        dirty: #[verifier::truncate] (d as i32),
        ago: ago_at(p.last_touched_unix, now),
        langs: string_of(&langs),
        flags: flags_str(&p.health),
    }
}

/// The projects a filter shows, in list order.
pub open spec fn visible(ps: Seq<ProjectView>, filter: Seq<char>) -> Seq<ProjectView>
    decreases ps.len(),
{
    if ps.len() == 0 {
        Seq::empty()
    } else {
        let r = visible(ps.drop_last(), filter);
        if shown(ps.last(), filter) {
            r.push(ps.last())
        } else {
            r
        }
    }
}

pub open spec fn items_view(v: Seq<ProjectItem>) -> Seq<ProjectItemView> {
    v.map_values(|i: ProjectItem| i@)
}

/// The rows the list shows for a filter as typed (it is lowercased first).
pub fn visible_items(projects: &Vec<Project>, filter: &str, now: i64) -> (r: Vec<ProjectItem>)
    ensures
        items_view(r@) == visible(projects_view(projects@), lowercase(filter@)).map_values(
            |p: ProjectView| project_item_spec(p, now as int),
        ),
{
    let f = to_lower(filter);
    let ghost pv = projects_view(projects@);
    let mut r: Vec<ProjectItem> = Vec::new();
    let mut i: usize = 0;
    while i < projects.len()
        invariant
            i <= projects@.len(),
            pv == projects_view(projects@),
            f@ == lowercase(filter@),
            items_view(r@) == visible(pv.subrange(0, i as int), f@).map_values(
                |p: ProjectView| project_item_spec(p, now as int),
            ),
        decreases projects.len() - i,
    {
        assert(pv.subrange(0, i + 1).drop_last() =~= pv.subrange(0, i as int));
        assert(pv.subrange(0, i + 1).last() == projects@[i as int]@);
        if is_shown(&projects[i], f.as_str()) {
            let ghost before = items_view(r@);
            r.push(project_item(&projects[i], now));
            assert(items_view(r@) =~= before.push(project_item_spec(projects@[i as int]@, now as int)));
            assert(items_view(r@) =~= visible(pv.subrange(0, i + 1), f@).map_values(
                |p: ProjectView| project_item_spec(p, now as int),
            ));
        }
        i += 1;
    }
    assert(pv.subrange(0, pv.len() as int) =~= pv);
    r
}

// ---------------------------------------------------------------------
// The stats line
// ---------------------------------------------------------------------

pub open spec fn count_active(ps: Seq<ProjectView>) -> nat
    decreases ps.len(),
{
    if ps.len() == 0 {
        0
    } else {
        count_active(ps.drop_last()) + if ps.last().activity == Activity::Active {
            1nat
        } else {
            0nat
        }
    }
}

pub open spec fn count_flagged(ps: Seq<ProjectView>) -> nat
    decreases ps.len(),
{
    if ps.len() == 0 {
        0
    } else {
        count_flagged(ps.drop_last()) + if ps.last().health.len() > 0 {
            1nat
        } else {
            0nat
        }
    }
}

proof fn lemma_counts_bounded(ps: Seq<ProjectView>)
    ensures
        count_active(ps) <= ps.len(),
        count_flagged(ps) <= ps.len(),
    decreases ps.len(),
{
    if ps.len() > 0 {
        lemma_counts_bounded(ps.drop_last());
    }
}

/// "<n> projects · <a> active · <f> flagged".
pub open spec fn stats_text(ps: Seq<ProjectView>) -> Seq<char> {
    dec(ps.len()) + " projects · "@ + dec(count_active(ps)) + " active · "@ + dec(count_flagged(ps)) + " flagged"@
}

pub fn stats(projects: &Vec<Project>) -> (r: String)
    ensures
        r@ == stats_text(projects_view(projects@)),
{
    let ghost pv = projects_view(projects@);
    let mut active: usize = 0;
    let mut flagged: usize = 0;
    let mut i: usize = 0;
    while i < projects.len()
        invariant
            i <= projects@.len(),
            pv == projects_view(projects@),
            active == count_active(pv.subrange(0, i as int)),
            flagged == count_flagged(pv.subrange(0, i as int)),
        decreases projects.len() - i,
    {
        assert(pv.subrange(0, i + 1).drop_last() =~= pv.subrange(0, i as int));
        assert(pv.subrange(0, i + 1).last() == projects@[i as int]@);
        proof {
            lemma_counts_bounded(pv.subrange(0, i as int));
        }
        if projects[i].activity == Activity::Active {
            active += 1;
        }
        if projects[i].health.len() > 0 {
            flagged += 1;
        }
        i += 1;
    }
    assert(pv.subrange(0, pv.len() as int) =~= pv);
    let mut v: Vec<char> = Vec::new();
    push_dec(&mut v, projects.len() as u64);
    extend_str(&mut v, " projects · ");
    push_dec(&mut v, active as u64);
    extend_str(&mut v, " active · ");
    push_dec(&mut v, flagged as u64);
    extend_str(&mut v, " flagged");
    string_of(&v)
}

// ---------------------------------------------------------------------
// The timeline panel
// ---------------------------------------------------------------------

/// The panel holds at most this many commits.
pub const TIMELINE_ITEMS: usize = 200;

#[derive(Clone, Debug)]
pub struct TimelineItem {
    pub stamp: String,
    pub project: String,
    pub summary: String,
}

/// `%a %H:%M` of the local stamp; empty when the instant has none.
pub open spec fn stamp_text(s: Option<LocalStamp>) -> Seq<char> {
    match s {
        Some(s) => weekday_name(s.weekday) + " "@ + clock_text(s),
        None => Seq::empty(),
    }
}

pub open spec fn timeline_items_view(v: Seq<TimelineItem>) -> Seq<(Seq<char>, Seq<char>, Seq<char>)> {
    v.map_values(|t: TimelineItem| (t.stamp@, t.project@, t.summary@))
}

/// The first `TIMELINE_ITEMS` entries (already newest first), each with its
/// stamp.
pub open spec fn timeline_items_spec(
    entries: Seq<(Seq<char>, crate::protocol::CommitSummaryView)>,
    stamps: Seq<Option<LocalStamp>>,
) -> Seq<(Seq<char>, Seq<char>, Seq<char>)> {
    Seq::new(
        if entries.len() < TIMELINE_ITEMS {
            entries.len()
        } else {
            TIMELINE_ITEMS as nat
        },
        |i: int| (stamp_text(stamps[i]), entries[i].0, entries[i].1.summary),
    )
}

fn stamp_string(s: Option<LocalStamp>) -> (r: String)
    ensures
        r@ == stamp_text(s),
{
    match s {
        Some(st) => {
            let mut v: Vec<char> = Vec::new();
            extend_str(&mut v, crate::render::weekday_str(st.weekday));
            extend_str(&mut v, " ");
            crate::render::push_clock(&mut v, st);
            string_of(&v)
        },
        None => String::new(),
    }
}

pub fn timeline_items(entries: &Vec<(String, crate::protocol::CommitSummary)>, stamps: &Vec<Option<LocalStamp>>) -> (r: Vec<TimelineItem>)
    requires
        stamps@.len() == entries@.len(),
    ensures
        timeline_items_view(r@) == timeline_items_spec(entries_view(entries@), stamps@),
{
    let n = if entries.len() < TIMELINE_ITEMS {
        entries.len()
    } else {
        TIMELINE_ITEMS
    };
    let mut r: Vec<TimelineItem> = Vec::new();
    let mut i: usize = 0;
    while i < n
        invariant
            n <= entries@.len(),
            stamps@.len() == entries@.len(),
            n == (if entries@.len() < TIMELINE_ITEMS {
                entries@.len()
            } else {
                TIMELINE_ITEMS as nat
            }),
            i <= n,
            timeline_items_view(r@) == timeline_items_spec(entries_view(entries@), stamps@).subrange(0, i as int),
        decreases n - i,
    {
        let ghost before = timeline_items_view(r@);
        r.push(
            TimelineItem {
                stamp: stamp_string(stamps[i]),
                project: copy_string(&entries[i].0),
                summary: copy_string(&entries[i].1.summary),
            },
        );
        assert(timeline_items_view(r@) =~= before.push(
            (stamp_text(stamps@[i as int]), entries@[i as int].0@, entries@[i as int].1.summary@),
        ));
        assert(timeline_items_view(r@) =~= timeline_items_spec(entries_view(entries@), stamps@).subrange(0, i + 1));
        i += 1;
    }
    assert(timeline_items_spec(entries_view(entries@), stamps@).subrange(0, n as int) =~= timeline_items_spec(
        entries_view(entries@),
        stamps@,
    ));
    r
}

/// The panel's timeline in the time zone `zone` (offset in seconds east of
/// UTC for an instant): the newest `TIMELINE_ITEMS` commits, each stamped at
/// an offset the zone gives for its instant.
pub fn timeline_panel<F: Fn(i64) -> i32>(projects: &Vec<Project>, zone: &F) -> (r: Vec<TimelineItem>)
    requires
        forall|t: i64| zone.requires((t,)),
    ensures
        exists|offs: Seq<i32>|
            zone_gives(*zone, sort_desc(crate::render::commit_entries(projects_view(projects@)), by_entry_time()), offs)
                && timeline_items_view(r@) == timeline_items_spec(
                sort_desc(crate::render::commit_entries(projects_view(projects@)), by_entry_time()),
                stamps_at(sort_desc(crate::render::commit_entries(projects_view(projects@)), by_entry_time()), offs),
            ),
{
    let entries = crate::render::timeline_entries(projects);
    proof {
        crate::sort::lemma_sort_desc(crate::render::commit_entries(projects_view(projects@)), by_entry_time());
    }
    let stamps = crate::render::local_stamps(&entries, zone);
    let ghost offs = choose|offs: Seq<i32>|
        zone_gives(*zone, entries_view(entries@), offs) && stamps@ == stamps_at(entries_view(entries@), offs);
    let r = timeline_items(&entries, &stamps);
    assert(zone_gives(*zone, entries_view(entries@), offs) && timeline_items_view(r@) == timeline_items_spec(
        entries_view(entries@),
        stamps_at(entries_view(entries@), offs),
    ));
    r
}

/// `%a %H:%M` of an instant in the time zone `zone` ("" when chrono has
/// no local time for it).
pub fn stamp<F: Fn(i64) -> i32>(unix: i64, zone: &F) -> (r: String)
    requires
        forall|t: i64| zone.requires((t,)),
    ensures
        exists|off: i32| zone.ensures((unix,), off) && r@ == stamp_text(chrono_stamp(unix, off)),
{
    let off = zone(unix);
    stamp_string(crate::render::local_stamp_at(unix, off))
}

/// What the frontend shows after any change: the rows the filter lets
/// through, the timeline panel in the time zone `zone`, and the stats line.
pub fn refresh<F: Fn(i64) -> i32>(projects: &Vec<Project>, filter: &str, now: i64, zone: &F) -> (r: (
    Vec<ProjectItem>,
    Vec<TimelineItem>,
    String,
))
    requires
        forall|t: i64| zone.requires((t,)),
    ensures
        items_view(r.0@) == visible(projects_view(projects@), lowercase(filter@)).map_values(
            |p: ProjectView| project_item_spec(p, now as int),
        ),
        exists|offs: Seq<i32>|
            zone_gives(*zone, sort_desc(crate::render::commit_entries(projects_view(projects@)), by_entry_time()), offs)
                && timeline_items_view(r.1@) == timeline_items_spec(
                sort_desc(crate::render::commit_entries(projects_view(projects@)), by_entry_time()),
                stamps_at(sort_desc(crate::render::commit_entries(projects_view(projects@)), by_entry_time()), offs),
            ),
        r.2@ == stats_text(projects_view(projects@)),
{
    (visible_items(projects, filter, now), timeline_panel(projects, zone), stats(projects))
}

// ---------------------------------------------------------------------
// Talking to the daemon
// ---------------------------------------------------------------------

/// The daemon the frontend reads from.
pub const DAEMON_BASE: &'static str = "http://127.0.0.1:7320";

/// The longest wait (seconds) between reconnect attempts.
pub const MAX_BACKOFF_SECS: u64 = 15;

/// After a failed connection the wait doubles, up to `MAX_BACKOFF_SECS`.
pub fn next_backoff(secs: u64) -> (r: u64)
    ensures
        r == if 2 * secs < MAX_BACKOFF_SECS {
            2 * secs
        } else {
            MAX_BACKOFF_SECS as int
        },
{
    if secs <= 7 {
        2 * secs
    } else {
        MAX_BACKOFF_SECS
    }
}

/// Reconnecting never waits longer than `MAX_BACKOFF_SECS`, and a wait
/// within the cap never shrinks.
pub proof fn law_backoff_bounded(secs: u64)
    ensures
        (if 2 * secs < MAX_BACKOFF_SECS {
            2 * secs
        } else {
            MAX_BACKOFF_SECS as int
        }) <= MAX_BACKOFF_SECS,
        secs <= MAX_BACKOFF_SECS ==> secs <= (if 2 * secs < MAX_BACKOFF_SECS {
            2 * secs
        } else {
            MAX_BACKOFF_SECS as int
        }),
{
}

/// `<base>/api/docs/<name>`: a project's doc list.
pub fn docs_url(name: &str) -> (r: String)
    ensures
        r@ == DAEMON_BASE@ + "/api/docs/"@ + name@,
{
    let mut v: Vec<char> = Vec::new();
    extend_str(&mut v, DAEMON_BASE);
    extend_str(&mut v, "/api/docs/");
    extend_str(&mut v, name);
    string_of(&v)
}

/// `<base>/api/doc/<project>/<path>`, the path encoded piece by piece.
pub fn doc_url(project: &str, path: &str) -> (r: String)
    ensures
        r@ == DAEMON_BASE@ + "/api/doc/"@ + project@ + "/"@ + crate::client::encode_path_spec(path@),
{
    let mut v: Vec<char> = Vec::new();
    extend_str(&mut v, DAEMON_BASE);
    extend_str(&mut v, "/api/doc/");
    extend_str(&mut v, project);
    extend_str(&mut v, "/");
    let e = crate::client::encode_path(path);
    extend_str(&mut v, e.as_str());
    string_of(&v)
}

} // verus!
