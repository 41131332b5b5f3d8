use prefrontal::config::Config;
use prefrontal::protocol::{Activity, Event, GitInfo, HealthFlag, Project};
use prefrontal::watch::{
    apply_rescan, components_of, project_of, watch_choice, watch_new_dir, within_watch_depth, Debouncer,
    WatchChoice, MAX_WATCH_DEPTH, QUIET_MS,
};

fn project(name: &str, path: &str, touched: i64) -> Project {
    Project {
        name: name.to_string(),
        path: path.to_string(),
        languages: vec!["rust".to_string()],
        activity: Activity::Active,
        git: None,
        tagline: None,
        tags: vec![],
        health: vec![HealthFlag::NoGit],
        last_touched_unix: touched,
        has_readme: false,
        has_claude_md: false,
    }
}

fn names(ps: &[Project]) -> Vec<String> {
    ps.iter().map(|p| p.name.clone()).collect()
}

fn roots() -> Vec<String> {
    vec!["/home/u/Projects".to_string(), "/srv/code/".to_string()]
}

#[test]
fn project_of_maps_a_file_to_its_project_dir() {
    let r = project_of("/home/u/Projects/foo/src/main.rs", &roots());
    assert_eq!(r, Some("/home/u/Projects/foo".to_string()));
}

#[test]
fn project_of_the_root_itself_is_none() {
    assert_eq!(project_of("/home/u/Projects", &roots()), None);
    assert_eq!(project_of("/home/u/Projects/", &roots()), None);
}

#[test]
fn project_of_outside_every_root_is_none() {
    assert_eq!(project_of("/tmp/foo/bar", &roots()), None);
    // a sibling directory that merely shares a text prefix is not inside
    assert_eq!(project_of("/home/u/ProjectsOld/foo", &roots()), None);
}

#[test]
fn project_of_compares_components_not_text() {
    let r = project_of("/srv//code/./bar/x.md", &roots());
    assert_eq!(r, Some("/srv/code/bar".to_string()));
}

#[test]
fn components_follow_path_rules() {
    let c: Vec<String> = components_of("/a//b/./c/").into_iter().map(|v| v.into_iter().collect()).collect();
    assert_eq!(c, vec!["/", "a", "b", "c"]);
    let d: Vec<String> = components_of("./x").into_iter().map(|v| v.into_iter().collect()).collect();
    assert_eq!(d, vec![".", "x"]);
    assert!(components_of("").is_empty());
}

#[test]
fn watch_choices() {
    assert_eq!(watch_choice(".git"), WatchChoice::GitDir);
    assert_eq!(watch_choice(".cache"), WatchChoice::Skip);
    assert_eq!(watch_choice("target"), WatchChoice::Skip);
    assert_eq!(watch_choice("node_modules"), WatchChoice::Skip);
    assert_eq!(watch_choice("src"), WatchChoice::Descend);
    assert!(within_watch_depth(MAX_WATCH_DEPTH));
    assert!(!within_watch_depth(MAX_WATCH_DEPTH + 1));
}

#[test]
fn new_directories_get_watches_unless_hidden_or_build_output() {
    assert!(watch_new_dir("/home/u/Projects/newthing"));
    assert!(!watch_new_dir("/home/u/Projects/.hidden"));
    assert!(!watch_new_dir("/home/u/Projects/foo/target"));
}

#[test]
fn debouncer_waits_for_quiet_after_the_last_event() {
    let mut d = Debouncer::new();
    d.record("a".to_string(), 0);
    d.record("b".to_string(), 100);
    d.record("a".to_string(), 500);
    // b has been quiet 900 ms; a only 500 ms since its last event
    assert_eq!(d.take_due(1000), vec!["b".to_string()]);
    assert_eq!(d.take_due(1099), Vec::<String>::new());
    assert_eq!(d.take_due(1100), vec!["a".to_string()]);
    // handed out once: nothing left
    assert_eq!(d.take_due(100_000), Vec::<String>::new());
}

#[test]
fn debouncer_exact_quiet_boundary() {
    let mut d = Debouncer::new();
    d.record("p".to_string(), 1000);
    assert!(d.take_due(1000 + QUIET_MS - 1).is_empty());
    assert_eq!(d.take_due(1000 + QUIET_MS), vec!["p".to_string()]);
}

#[test]
fn debouncer_clock_earlier_than_event_is_not_due() {
    let mut d = Debouncer::new();
    d.record("p".to_string(), 5000);
    assert!(d.take_due(10).is_empty());
}

#[test]
fn note_event_records_the_project_unless_ignored() {
    let mut cfg = Config::default();
    cfg.ignore = vec!["junk".to_string()];
    let rs = roots();
    let mut d = Debouncer::new();
    d.note_event("/home/u/Projects/foo/a.rs", &rs, &cfg, 0);
    d.note_event("/home/u/Projects/junk/a.rs", &rs, &cfg, 0);
    d.note_event("/home/u/Projects/.dot/a.rs", &rs, &cfg, 0);
    d.note_event("/elsewhere/a.rs", &rs, &cfg, 0);
    assert_eq!(d.take_due(QUIET_MS), vec!["/home/u/Projects/foo".to_string()]);
}

#[test]
fn rescan_of_an_unchanged_project_is_silent() {
    let mut ps = vec![project("a", "/r/a", 10), project("b", "/r/b", 5)];
    let same = project("b", "/r/b", 5);
    let ev = apply_rescan(&mut ps, "/r/b", Some(same));
    assert!(ev.is_none());
    assert_eq!(names(&ps), vec!["a", "b"]);
}

#[test]
fn rescan_of_a_changed_project_resorts_and_reports() {
    let mut ps = vec![project("a", "/r/a", 10), project("b", "/r/b", 5)];
    let newer = project("b", "/r/b", 20);
    let ev = apply_rescan(&mut ps, "/r/b", Some(newer));
    match ev {
        Some(Event::ProjectChanged { project }) => {
            assert_eq!(project.name, "b");
            assert_eq!(project.last_touched_unix, 20);
        }
        _ => panic!("expected a change"),
    }
    assert_eq!(names(&ps), vec!["b", "a"]);
    // the same rescan again says nothing
    let again = apply_rescan(&mut ps, "/r/b", Some(project("b", "/r/b", 20)));
    assert!(again.is_none());
    assert_eq!(names(&ps), vec!["b", "a"]);
}

#[test]
fn rescan_of_a_new_project_joins_the_list() {
    let mut ps = vec![project("a", "/r/a", 10)];
    let ev = apply_rescan(&mut ps, "/r/c", Some(project("c", "/r/c", 3)));
    assert!(matches!(ev, Some(Event::ProjectChanged { .. })));
    assert_eq!(names(&ps), vec!["a", "c"]);
}

#[test]
fn rescan_keeps_equal_times_in_their_order() {
    let mut ps = vec![project("a", "/r/a", 10), project("b", "/r/b", 10)];
    let mut c = project("c", "/r/c", 10);
    c.tags = vec!["x".to_string()];
    let _ = apply_rescan(&mut ps, "/r/c", Some(c));
    assert_eq!(names(&ps), vec!["a", "b", "c"]);
}

#[test]
fn vanished_directory_is_removed_and_reported() {
    let mut ps = vec![project("a", "/r/a", 10), project("b", "/r/b", 5)];
    let ev = apply_rescan(&mut ps, "/r/a", None);
    match ev {
        Some(Event::ProjectRemoved { path }) => assert_eq!(path, "/r/a"),
        _ => panic!("expected a removal"),
    }
    assert_eq!(names(&ps), vec!["b"]);
    let nothing = apply_rescan(&mut ps, "/r/zzz", None);
    assert!(nothing.is_none());
    assert_eq!(names(&ps), vec!["b"]);
}

#[test]
fn git_changes_count_as_changes() {
    let mut ps = vec![project("a", "/r/a", 10)];
    let mut dirty = project("a", "/r/a", 10);
    dirty.git = Some(GitInfo {
        branch: Some("main".to_string()),
        last_commit_unix: Some(10),
        dirty_files: Some(3),
        commit_count: Some(4),
        remote: None,
        recent_commits: vec![],
    });
    assert!(apply_rescan(&mut ps, "/r/a", Some(dirty)).is_some());
    assert_eq!(ps[0].git.as_ref().unwrap().dirty_files, Some(3));
}

#[test]
fn rescans_never_list_a_path_twice() {
    let mut ps = vec![project("a", "/r/a", 10), project("b", "/r/b", 5)];
    let _ = apply_rescan(&mut ps, "/r/b", Some(project("b", "/r/b", 50)));
    let _ = apply_rescan(&mut ps, "/r/c", Some(project("c", "/r/c", 7)));
    let _ = apply_rescan(&mut ps, "/r/a", Some(project("a", "/r/a", 1)));
    let mut paths: Vec<String> = ps.iter().map(|p| p.path.clone()).collect();
    assert_eq!(paths, vec!["/r/b", "/r/c", "/r/a"]);
    paths.sort();
    paths.dedup();
    assert_eq!(paths.len(), 3);
}
