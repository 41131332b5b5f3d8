use prefrontal::colony::{
    colony_status, effective_port, find_binary, install_dirs, is_executable, lander, loopback, roster, sibling,
    ROSTER_LEN,
};
use prefrontal::config::Config;
use prefrontal::mcp::{
    check_query, colony_gate, method_not_found, negotiated_version, no_hits, rpc_method, search_limit,
    history_window, tool_definitions, tool_of, unknown_project, unknown_tool, where_days, where_lines, RpcMethod,
    Server, Tool,
    METHOD_NOT_FOUND, PROTOCOL_VERSION, SCAN_TTL_MS,
};
use prefrontal::protocol::{Activity, CommitSummary, Project, SiblingSurface};
use prefrontal::render::LocalStamp;
use prefrontal::scan::{now_unix, RawCommit, RawHistory};

fn project(name: &str, path: &str) -> Project {
    Project {
        name: name.to_string(),
        path: path.to_string(),
        languages: vec![],
        activity: Activity::Cold,
        git: None,
        tagline: None,
        tags: vec![],
        health: vec![],
        last_touched_unix: 0,
        has_readme: false,
        has_claude_md: false,
    }
}

#[test]
fn roster_has_the_thirteen_in_order() {
    let r = roster();
    assert_eq!(r.len(), ROSTER_LEN);
    assert_eq!(r[0].name, "Prefrontal-RS");
    assert_eq!(r[0].port, Some(7320));
    assert_eq!(r[0].binaries, vec!["prefrontald".to_string(), "prefrontal".to_string()]);
    assert_eq!(r[10].name, "ApexOS-RV");
    assert!(r[10].binaries.is_empty());
    assert_eq!(r[11].name, "Launchpad-RS");
    assert_eq!(r[12].name, "NeuralSymphony-RS");
    assert_eq!(r[12].port, Some(7664));
    assert_eq!(r[12].surface, SiblingSurface::HttpApi);
}

#[test]
fn ports_come_from_config_before_the_roster() {
    let r = roster();
    let mut cfg = Config::default();
    assert_eq!(effective_port(&cfg, &r[4]), Some(8765));
    cfg.colony.ports = vec![("CerebroCortex-RS".to_string(), 9999), ("CerebroCortex-RS".to_string(), 1)];
    assert_eq!(effective_port(&cfg, &r[4]), Some(9999));
    assert_eq!(effective_port(&cfg, &r[6]), None);
}

#[test]
fn urls_and_landers() {
    assert_eq!(loopback(7320), "http://127.0.0.1:7320/");
    assert_eq!(lander("Prefrontal-RS"), "https://apexaurum.no/Prefrontal/");
    assert_eq!(lander("ApexOS-RV"), "https://apexaurum.no/ApexOS-RV/");
}

#[test]
fn one_sibling_from_its_signals() {
    let r = roster();
    let cfg = Config::default();
    let projects = vec![project("Prefrontal-RS", "/r/Prefrontal-RS")];
    let s = sibling(&r[0], &cfg, &projects, None, true);
    assert_eq!(s.url, Some("http://127.0.0.1:7320/".to_string()));
    assert_eq!(s.live, Some(true));
    assert_eq!(s.checkout, Some("/r/Prefrontal-RS".to_string()));
    assert_eq!(s.mcp, Some("prefrontal".to_string()));
    let api = sibling(&r[4], &cfg, &projects, Some("/bin/cerebro-mcp".to_string()), false);
    assert_eq!(api.url, None);
    assert_eq!(api.live, Some(false));
    assert_eq!(api.surface, SiblingSurface::HttpApi);
    let none = sibling(&r[7], &cfg, &projects, None, true);
    assert_eq!(none.port, None);
    assert_eq!(none.live, None);
}

#[test]
fn colony_sweep_covers_the_roster() {
    let cfg = Config::default();
    let binaries: Vec<Option<String>> = (0..ROSTER_LEN).map(|_| None).collect();
    let answers: Vec<bool> = (0..ROSTER_LEN).map(|i| i == 3).collect();
    let c = colony_status(&cfg, &vec![], &binaries, &answers, 42);
    assert_eq!(c.checked_unix, 42);
    assert_eq!(c.siblings.len(), ROSTER_LEN);
    assert_eq!(c.siblings[3].name, "ApexRouter-RS");
    assert_eq!(c.siblings[3].live, Some(true));
    assert_eq!(c.siblings[3].url, Some("http://127.0.0.1:8888/".to_string()));
    assert_eq!(c.siblings[0].live, Some(false));
}

#[test]
fn executables_and_binaries() {
    assert!(is_executable(true, 0o755));
    assert!(is_executable(true, 0o100));
    assert!(!is_executable(true, 0o644));
    assert!(!is_executable(false, 0o755));
    let dirs = vec!["/a".to_string(), "/b/".to_string()];
    let names = vec!["x".to_string(), "y".to_string()];
    // y exists in /a, x exists in /b: names come first, so x wins
    let found = find_binary(&dirs, &names, &vec![vec![false, true], vec![true, false]]);
    assert_eq!(found, Some("/b/x".to_string()));
    let none = find_binary(&dirs, &names, &vec![vec![false, false], vec![false, false]]);
    assert_eq!(none, None);
}

#[test]
fn install_dirs_keep_the_first_of_equal_paths() {
    let d = install_dirs(&vec!["/usr/bin".to_string(), "/usr/local/bin/".to_string(), "/usr/bin".to_string()]);
    assert_eq!(d[0], "/usr/bin");
    assert_eq!(d[1], "/usr/local/bin/");
    assert_eq!(d.iter().filter(|x| x.starts_with("/usr/local/bin")).count(), 1);
    assert_eq!(d.iter().filter(|x| x.as_str() == "/usr/bin").count(), 1);
}

#[test]
fn rpc_methods_and_errors() {
    assert_eq!(rpc_method("initialize"), RpcMethod::Initialize);
    assert_eq!(rpc_method("ping"), RpcMethod::Ping);
    assert_eq!(rpc_method("tools/list"), RpcMethod::ToolsList);
    assert_eq!(rpc_method("tools/call"), RpcMethod::ToolsCall);
    assert_eq!(rpc_method("resources/list"), RpcMethod::Unknown);
    let (code, msg) = method_not_found("resources/list");
    assert_eq!(code, METHOD_NOT_FOUND);
    assert_eq!(code, -32601);
    assert_eq!(msg, "method not found: resources/list");
    assert_eq!(negotiated_version(Some("2025-01-01")), "2025-01-01");
    assert_eq!(negotiated_version(None), PROTOCOL_VERSION);
}

#[test]
fn tools_and_arguments() {
    assert_eq!(tool_of("where_was_i"), Some(Tool::WhereWasI));
    assert_eq!(tool_of("colony_status"), Some(Tool::ColonyStatus));
    assert_eq!(tool_of("nope"), None);
    assert_eq!(unknown_tool("nope"), "unknown tool: nope");
    assert_eq!(where_days(None), 14);
    assert_eq!(where_days(Some(3)), 3);
    assert_eq!(search_limit(None), Ok(20));
    assert_eq!(search_limit(Some(7)), Ok(7));
    assert_eq!(search_limit(Some(500)), Ok(100));
    assert_eq!(search_limit(Some(1)), Ok(1));
    assert_eq!(search_limit(Some(0)), Err("limit must be at least 1".to_string()));
    assert_eq!(check_query("  "), Err("query must not be empty".to_string()));
    assert_eq!(check_query("x"), Ok(()));
    assert_eq!(no_hits("q"), "no hits for \"q\"");
    assert_eq!(unknown_project("zz"), "unknown project: zz");
}

#[test]
fn colony_gate_follows_the_config() {
    let mut cfg = Config::default();
    assert_eq!(colony_gate(&cfg), Ok(()));
    cfg.colony.enabled = false;
    assert_eq!(
        colony_gate(&cfg),
        Err("colony panel disabled in the config (colony.enabled = false)".to_string())
    );
}

#[test]
fn scan_cache_lives_ten_seconds() {
    let mut s = Server::new(Config::default());
    assert!(s.needs_scan(0));
    assert!(s.cached_projects().is_empty());
    s.store_scan(1_000, vec![project("a", "/r/a")]);
    assert!(!s.needs_scan(1_000));
    assert!(!s.needs_scan(1_000 + SCAN_TTL_MS));
    assert!(s.needs_scan(1_000 + SCAN_TTL_MS + 1));
    assert_eq!(s.cached_projects().len(), 1);
}

#[test]
fn tools_rescan_only_a_stale_cache() {
    let mut s = Server::new(Config::default());
    // No scan yet: one is taken and kept.
    let first = s.projects(500, || vec![project("a", "/r/a")]);
    assert_eq!(first.len(), 1);
    assert!(!s.needs_scan(500));
    // Within ten seconds the cache answers and the scan is not run.
    let cached = s.projects(500 + SCAN_TTL_MS, || -> Vec<Project> { panic!("the cache is fresh") });
    assert_eq!(cached[0].name, "a");
    // Past ten seconds a new scan replaces the cache.
    let fresh = s.projects(501 + SCAN_TTL_MS, || vec![project("b", "/r/b"), project("c", "/r/c")]);
    assert_eq!(fresh.len(), 2);
    assert_eq!(s.cached_projects()[0].name, "b");
    assert!(!s.needs_scan(501 + SCAN_TTL_MS));
}

#[test]
fn server_finds_projects_by_name() {
    let mut s = Server::new(Config::default());
    s.store_scan(0, vec![project("a", "/r/a"), project("b", "/r/b")]);
    assert_eq!(s.project_dir("b"), Some("/r/b".to_string()));
    assert_eq!(s.project_dir("c"), None);
    assert_eq!(s.tool_read_doc("c", "README.md"), Err("unknown project: c".to_string()));
    assert_eq!(s.tool_read_doc("a", "notes/x.md"), Ok("/r/a/notes/x.md".to_string()));
    assert_eq!(
        s.tool_read_doc("a", "../x.md"),
        Err("path must be relative and stay inside the project".to_string())
    );
    assert_eq!(s.tool_read_doc("a", "x.rs"), Err("only [\"md\", \"markdown\", \"txt\"] files".to_string()));
    assert_eq!(s.tool_project_status("b").map(|p| p.path), Ok("/r/b".to_string()));
    assert_eq!(
        s.tool_project_status("zz").map(|p| p.path),
        Err("unknown project: zz (try list_projects)".to_string())
    );
    assert!(s.config().colony.enabled);
}

#[test]
fn where_was_i_text() {
    let entries = vec![
        ("A".to_string(), CommitSummary { id: "1".to_string(), summary: "fix".to_string(), time_unix: 9 }),
        ("B".to_string(), CommitSummary { id: "2".to_string(), summary: "add".to_string(), time_unix: 8 }),
    ];
    let stamps = vec![
        Some(LocalStamp { days: 1, weekday: 1, day: 5, month: 3, hour: 7, minute: 9 }),
        None,
    ];
    assert_eq!(where_lines(&entries, &stamps, 14), "Tue 05 Mar 07:09  A — fix\n  B — add");
    assert_eq!(where_lines(&vec![], &vec![], 14), "no commits in the last 14 days");
    let s = Server::new(Config::default());
    assert_eq!(s.tool_where_was_i(3, &vec![], &|_t: i64| 0), "no commits in the last 3 days");
}

fn raw(id: &str, summary: &str, t: Option<i64>) -> RawCommit {
    RawCommit { id: id.to_string(), summary: summary.to_string(), time_unix: t }
}

#[test]
fn where_was_i_looks_back_as_far_as_asked() {
    let now = now_unix();
    let old = now - 40 * 86_400;
    let recent = now - 86_400;
    let histories = vec![
        (
            "A".to_string(),
            Some(RawHistory {
                head_time: Some(recent),
                walk: vec![raw("aaaaaaaaaa", "recent work", Some(recent)), raw("bbbbbbbbbb", "old work", Some(old)), raw("c", "unreadable", None)],
            }),
        ),
        ("B".to_string(), None),
    ];
    let s = Server::new(Config::default());
    let short = s.tool_where_was_i(14, &histories, &|_t: i64| 0);
    assert!(short.contains("A — recent work"));
    assert!(!short.contains("old work"));
    let long = s.tool_where_was_i(60, &histories, &|_t: i64| 0);
    let lines: Vec<&str> = long.lines().collect();
    assert_eq!(lines.len(), 2);
    assert!(lines[0].ends_with("A — recent work"));
    assert!(lines[1].ends_with("A — old work"));
    let w = history_window(&histories, (old - 1) as i128);
    assert_eq!(w.len(), 2);
    assert_eq!(w[0].1.id, "aaaaaaaa");
    assert_eq!(w[1].1.time_unix, old);
}

#[test]
fn tool_list_matches_the_eight_tools() {
    let t = tool_definitions();
    let names: Vec<&str> = t.iter().map(|d| d.name.as_str()).collect();
    assert_eq!(
        names,
        vec!["list_projects", "project_status", "where_was_i", "search", "list_docs", "read_doc", "write_doc", "colony_status"]
    );
    assert_eq!(t[3].required, vec!["query".to_string()]);
    assert_eq!(t[3].params[1].kind, "integer");
    assert_eq!(t[3].params[1].description, Some("max hits, default 20".to_string()));
    assert_eq!(t[6].required.len(), 3);
}
