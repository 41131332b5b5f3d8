use prefrontal::protocol::{
    Activity, ColonyStatus, CommitSummary, Event, GitInfo, HealthFlag, Project, Sibling, SiblingSurface,
};
use prefrontal::render::{
    activity_str, ago, ago_at, colony_header, colony_row, colony_table, flags_str, health_report, hit_lines,
    nothing_found, query_is_blank, status_table, table_header, table_row, timeline, timeline_entries,
    timeline_lines, truncate, local_stamps, LocalStamp,
};
use prefrontal::ui::stamp as ui_stamp;
use prefrontal::ui::{
    apply, doc_url, docs_url, is_shown, next_backoff, project_item, stats, timeline_items, timeline_panel,
    visible_items, TIMELINE_ITEMS,
};
use prefrontal::watch::apply_rescan;

const DAY: i64 = 86_400;

fn commit(summary: &str, t: i64) -> CommitSummary {
    CommitSummary { id: "abcdef12".to_string(), summary: summary.to_string(), time_unix: t }
}

fn project(name: &str, touched: i64) -> Project {
    Project {
        name: name.to_string(),
        path: format!("/r/{name}"),
        languages: vec!["rust".to_string(), "node".to_string()],
        activity: Activity::Warm,
        git: Some(GitInfo {
            branch: Some("main".to_string()),
            last_commit_unix: Some(touched),
            dirty_files: Some(2),
            commit_count: Some(9),
            remote: None,
            recent_commits: vec![],
        }),
        tagline: Some("Visual Cortex".to_string()),
        tags: vec![],
        health: vec![],
        last_touched_unix: touched,
        has_readme: true,
        has_claude_md: false,
    }
}

#[test]
fn activity_words() {
    assert_eq!(activity_str(Activity::Active), "active");
    assert_eq!(activity_str(Activity::Warm), "warm");
    assert_eq!(activity_str(Activity::Cold), "cold");
    assert_eq!(activity_str(Activity::Parked), "parked");
    assert_eq!(activity_str(Activity::Archived), "archived");
}

#[test]
fn flag_words_joined_by_spaces() {
    let f = vec![HealthFlag::NoGit, HealthFlag::NoRemote, HealthFlag::NeverCommitted, HealthFlag::DirtyPile { count: 44 }];
    assert_eq!(flags_str(&f), "no-git no-remote never-committed dirty-pile(44)");
    assert_eq!(flags_str(&vec![]), "");
}

#[test]
fn ago_buckets() {
    let now = 1_000 * DAY;
    assert_eq!(ago_at(now, now), "today");
    assert_eq!(ago_at(now - DAY + 1, now), "today");
    assert_eq!(ago_at(now - DAY, now), "1d ago");
    assert_eq!(ago_at(now - 5 * DAY, now), "5d ago");
    assert_eq!(ago_at(now - 59 * DAY, now), "59d ago");
    assert_eq!(ago_at(now - 60 * DAY, now), "2mo ago");
    assert_eq!(ago_at(now - 400 * DAY, now), "13mo ago");
    // the future counts as today
    assert_eq!(ago_at(now + 10 * DAY, now), "today");
}

#[test]
fn ago_by_the_clock_is_a_known_bucket() {
    let a = ago(0);
    assert!(a.ends_with("mo ago"));
}

#[test]
fn truncate_keeps_short_text_and_marks_cut_text() {
    assert_eq!(truncate("main", 24), "main");
    assert_eq!(truncate("abcdef", 4), "abc…");
    assert_eq!(truncate("abcd", 4), "abcd");
    assert_eq!(truncate("", 0), "");
}

#[test]
fn status_table_header_and_row() {
    assert_eq!(
        table_header(),
        format!("{:<28} {:<8} {:<12} {:<24} {:>5} {:>8}  FLAGS", "PROJECT", "STATE", "LANGS", "BRANCH", "DIRTY", "TOUCHED")
    );
    let now = 100 * DAY;
    let mut p = project("Occipital-RS", now - 3 * DAY);
    p.health = vec![HealthFlag::NoRemote];
    let expected = format!(
        "{:<28} {:<8} {:<12} {:<24} {:>5} {:>8}  {}",
        "Occipital-RS", "warm", "rust,node", "main", "2", "3d ago", "no-remote"
    );
    assert_eq!(table_row(&p, now), expected);
    let lines = status_table(&vec![p.clone(), project("x", now)], now);
    assert_eq!(lines.len(), 3);
    assert_eq!(lines[1], expected);
}

#[test]
fn status_row_without_git_and_long_branch() {
    let now = 10 * DAY;
    let mut p = project("n", now);
    p.git = None;
    assert!(table_row(&p, now).contains("    -"));
    let mut q = project("q", now);
    if let Some(g) = q.git.as_mut() {
        g.branch = Some("feature/a-very-long-branch-name-indeed".to_string());
    }
    assert!(table_row(&q, now).contains("feature/a-very-long-bra… "));
}

#[test]
fn health_report_lines_or_all_clear() {
    let clean = vec![project("a", 0)];
    assert_eq!(health_report(&clean), vec!["all clear — nothing rotting".to_string()]);
    let mut bad = project("b", 0);
    bad.health = vec![HealthFlag::NoRemote, HealthFlag::DirtyPile { count: 12 }];
    let lines = health_report(&vec![project("a", 0), bad]);
    assert_eq!(lines, vec![format!("{:<28} {}", "b", "no-remote dirty-pile(12)")]);
}

fn sibling(checkout: bool, binary: bool, live: Option<bool>, url: Option<&str>, port: Option<u16>, mcp: Option<&str>) -> Sibling {
    Sibling {
        name: "Callosum-RS".to_string(),
        tagline: "agent mesh + shim".to_string(),
        surface: SiblingSurface::HttpApi,
        port,
        url: url.map(|s| s.to_string()),
        mcp: mcp.map(|s| s.to_string()),
        checkout: if checkout { Some("/r/Callosum-RS".to_string()) } else { None },
        binary: if binary { Some("/usr/local/bin/callosum".to_string()) } else { None },
        live,
        lander: "https://apexaurum.no/Callosum/".to_string(),
    }
}

#[test]
fn colony_rows() {
    assert_eq!(
        colony_header(),
        format!("{:<20} {:<8} {:<14} {:<6} REACH", "SIBLING", "SURFACE", "INSTALLED", "LIVE")
    );
    let s = sibling(true, true, Some(true), None, Some(8788), Some("callosum"));
    assert_eq!(
        colony_row(&s),
        format!("{:<20} {:<8} {:<14} {:<6} {}", "Callosum-RS", "api", "checkout+bin", "up", "http://127.0.0.1:8788 (api) · mcp: callosum")
    );
    let gone = sibling(false, false, Some(false), None, Some(8788), None);
    assert_eq!(
        colony_row(&gone),
        format!("{:<20} {:<8} {:<14} {:<6} {}", "Callosum-RS", "api", "—", "down", "not here → https://apexaurum.no/Callosum/")
    );
    let bin_only = sibling(false, true, None, None, None, None);
    assert_eq!(
        colony_row(&bin_only),
        format!("{:<20} {:<8} {:<14} {:<6} {}", "Callosum-RS", "api", "binary", "·", "/usr/local/bin/callosum")
    );
    let port_only = sibling(false, false, Some(true), Some("http://127.0.0.1:1/"), Some(1), None);
    assert!(colony_row(&port_only).contains("port only"));
    let table = colony_table(&ColonyStatus { siblings: vec![s, gone], checked_unix: 0 });
    assert_eq!(table.len(), 3);
}

#[test]
fn search_hit_lines() {
    let (a, b) = hit_lines("Prefrontal-RS", "symbol", "prefrontald/src/watch.rs", Some(110), "async fn debounce_loop(");
    assert_eq!(a, format!("{:<24} {:<6} {}", "Prefrontal-RS", "symbol", "prefrontald/src/watch.rs:110"));
    assert_eq!(b, format!("{:24} {:6} └ {}", "", "", "async fn debounce_loop("));
    let (c, _) = hit_lines("P", "commit", "9cf767e6", None, "fix");
    assert!(c.ends_with("commit 9cf767e6"));
    let (d, _) = hit_lines("P", "doc", "README.md", None, "x");
    assert!(d.ends_with(" README.md"));
    assert_eq!(nothing_found("zzz"), "nothing found for \"zzz\"");
    assert!(query_is_blank("  \t "));
    assert!(!query_is_blank(" a "));
}

fn stamp(days: i64, weekday: u32, day: u32, month: u32, hour: u32, minute: u32) -> LocalStamp {
    LocalStamp { days, weekday, day, month, hour, minute }
}

#[test]
fn timeline_groups_by_local_day() {
    let entries = vec![
        ("A".to_string(), commit("newest", 30)),
        ("B".to_string(), commit("same day", 20)),
        ("A".to_string(), commit("yesterday's", 10)),
        ("C".to_string(), commit("older", 5)),
        ("C".to_string(), commit("no stamp", 1)),
    ];
    let stamps = vec![
        Some(stamp(700, 0, 3, 8, 9, 5)),
        Some(stamp(700, 0, 3, 8, 8, 0)),
        Some(stamp(699, 6, 2, 8, 23, 59)),
        Some(stamp(690, 4, 24, 7, 12, 30)),
        None,
    ];
    let lines = timeline_lines(&entries, &stamps, 700);
    let expected = vec![
        "".to_string(),
        "today".to_string(),
        format!("  09:05  {:<24} newest", "A"),
        format!("  08:00  {:<24} same day", "B"),
        "".to_string(),
        "yesterday".to_string(),
        format!("  23:59  {:<24} yesterday's", "A"),
        "".to_string(),
        "Fri 24 Jul".to_string(),
        format!("  12:30  {:<24} older", "C"),
    ];
    assert_eq!(lines, expected);
    assert_eq!(timeline_lines(&vec![], &vec![], 0), vec!["no commits in the timeline window".to_string()]);
}

#[test]
fn timeline_entries_are_newest_first_across_projects() {
    let mut a = project("a", 0);
    a.git.as_mut().unwrap().recent_commits = vec![commit("a2", 20), commit("a1", 5)];
    let mut b = project("b", 0);
    b.git.as_mut().unwrap().recent_commits = vec![commit("b1", 10)];
    let e = timeline_entries(&vec![a.clone(), b.clone()]);
    let order: Vec<String> = e.iter().map(|(_, c)| c.summary.clone()).collect();
    assert_eq!(order, vec!["a2", "b1", "a1"]);
    let printed = timeline(&vec![a, b], &|_t: i64| 0);
    assert_eq!(printed.iter().filter(|l| l.contains(" a2")).count(), 1);
}

#[test]
fn client_applies_frames() {
    let mut list = vec![project("a", 10), project("b", 5)];
    apply(&mut list, Event::ProjectChanged { project: Box::new(project("b", 20)) });
    assert_eq!(list.iter().map(|p| p.name.as_str()).collect::<Vec<_>>(), vec!["b", "a"]);
    apply(&mut list, Event::ProjectRemoved { path: "/r/a".to_string() });
    assert_eq!(list.len(), 1);
    apply(&mut list, Event::Colony { colony: ColonyStatus { siblings: vec![], checked_unix: 0 } });
    assert_eq!(list.len(), 1);
    apply(&mut list, Event::Snapshot { projects: vec![project("x", 1), project("y", 0)] });
    assert_eq!(list.iter().map(|p| p.name.as_str()).collect::<Vec<_>>(), vec!["x", "y"]);
}

#[test]
fn client_follows_the_daemon() {
    let start = vec![project("a", 10), project("b", 5)];
    let mut daemon = start.clone();
    let mut client = start.clone();
    if let Some(ev) = apply_rescan(&mut daemon, "/r/b", Some(project("b", 30))) {
        apply(&mut client, ev);
    }
    if let Some(ev) = apply_rescan(&mut daemon, "/r/a", None) {
        apply(&mut client, ev);
    }
    let d: Vec<(String, i64)> = daemon.iter().map(|p| (p.name.clone(), p.last_touched_unix)).collect();
    let c: Vec<(String, i64)> = client.iter().map(|p| (p.name.clone(), p.last_touched_unix)).collect();
    assert_eq!(d, c);
    assert_eq!(d, vec![("b".to_string(), 30)]);
}

#[test]
fn filter_matches_name_tagline_and_languages() {
    let p = project("Occipital-RS", 0);
    assert!(is_shown(&p, ""));
    assert!(is_shown(&p, "occi"));
    assert!(is_shown(&p, "cortex"));
    assert!(is_shown(&p, "rust node"));
    assert!(!is_shown(&p, "python"));
    let shown = visible_items(&vec![project("Alpha", 0), project("Beta", 0)], "ALP", 0);
    assert_eq!(shown.len(), 1);
    assert_eq!(shown[0].name, "Alpha");
}

#[test]
fn project_rows_and_stats() {
    let now = 50 * DAY;
    let mut p = project("Occipital-RS", now - DAY);
    p.health = vec![HealthFlag::DirtyPile { count: 11 }];
    let item = project_item(&p, now);
    assert_eq!(item.name, "Occipital-RS");
    assert_eq!(item.tagline, "Visual Cortex");
    assert_eq!(item.activity, "warm");
    assert_eq!(item.branch, "main");
    assert_eq!(item.dirty, 2);
    assert_eq!(item.ago, "1d ago");
    assert_eq!(item.langs, "rust · node");
    assert_eq!(item.flags, "dirty-pile(11)");
    let mut q = project("q", now);
    q.activity = Activity::Active;
    assert_eq!(stats(&vec![p, q, project("r", 0)]), "3 projects · 1 active · 1 flagged");
    assert_eq!(stats(&vec![]), "0 projects · 0 active · 0 flagged");
}

#[test]
fn timeline_panel_caps_at_two_hundred() {
    let entries: Vec<(String, CommitSummary)> = (0..250).map(|i| ("p".to_string(), commit("c", 1000 - i))).collect();
    let stamps: Vec<Option<LocalStamp>> = (0..250).map(|_| Some(stamp(1, 2, 3, 4, 5, 6))).collect();
    let items = timeline_items(&entries, &stamps);
    assert_eq!(items.len(), TIMELINE_ITEMS);
    assert_eq!(items[0].stamp, "Wed 05:06");
    let none = timeline_items(&entries[..1].to_vec(), &vec![None]);
    assert_eq!(none[0].stamp, "");
    let mut a = project("a", 0);
    a.git.as_mut().unwrap().recent_commits = vec![commit("only", 3)];
    let panel = timeline_panel(&vec![a], &|_t: i64| 0);
    assert_eq!(panel.len(), 1);
    assert_eq!(panel[0].summary, "only");
}

#[test]
fn stamps_follow_the_zone_offset() {
    // 1970-01-01 00:00 UTC was a Thursday.
    assert_eq!(ui_stamp(0, &|_t: i64| 0), "Thu 00:00");
    assert_eq!(ui_stamp(0, &|_t: i64| 3600), "Thu 01:00");
    assert_eq!(ui_stamp(-60, &|_t: i64| 0), "Wed 23:59");
    assert_eq!(ui_stamp(86_400 * 4 + 45_296, &|_t: i64| -1800), "Mon 12:04");
    // An offset of a whole day is no time zone chrono can hold.
    assert_eq!(ui_stamp(0, &|_t: i64| 86_400), "");
    // Each instant gets the offset the zone gives for it.
    let entries = vec![("a".to_string(), commit("x", 0)), ("b".to_string(), commit("y", 7200))];
    let zone = |t: i64| if t < 3600 { 0 } else { 3600 };
    let s = local_stamps(&entries, &zone);
    assert_eq!(s[0], Some(stamp(719_163, 3, 1, 1, 0, 0)));
    assert_eq!(s[1], Some(stamp(719_163, 3, 1, 1, 3, 0)));
}

#[test]
fn stamps_know_the_calendar_and_its_edge() {
    let entries = vec![
        ("leap".to_string(), commit("x", 1_709_164_800)),
        ("old".to_string(), commit("y", -2_203_891_200)),
    ];
    let s = local_stamps(&entries, &|_t: i64| 0);
    let leap = s[0].unwrap();
    assert_eq!((leap.day, leap.month), (29, 2));
    let old = s[1].unwrap();
    assert_eq!((old.day, old.month), (1, 3));
    // chrono's last second: moving it forward leaves chrono's range, which
    // reads as no stamp rather than a panic.
    let last = 8_210_266_876_799;
    assert_eq!(ui_stamp(last, &|_t: i64| 7200), "");
    assert!(!ui_stamp(last, &|_t: i64| -7200).is_empty());
}

#[test]
fn reconnect_backoff_doubles_up_to_fifteen() {
    assert_eq!(next_backoff(1), 2);
    assert_eq!(next_backoff(4), 8);
    assert_eq!(next_backoff(7), 14);
    assert_eq!(next_backoff(8), 15);
    assert_eq!(next_backoff(15), 15);
}

#[test]
fn frontend_urls() {
    assert_eq!(docs_url("Prefrontal-RS"), "http://127.0.0.1:7320/api/docs/Prefrontal-RS");
    assert_eq!(doc_url("P", "docs/my note.md"), "http://127.0.0.1:7320/api/doc/P/docs/my%20note.md");
}
