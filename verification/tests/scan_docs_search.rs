use prefrontal::docs::{write_step, WriteNext, WriteStage};
use prefrontal::config::{app_file, expand_tilde, expand_tilde_with, join_path, Config, ProjectOverride, Thresholds, TimelineConfig};
use prefrontal::docs::{
    commit_message, git_add_args, git_commit_args, git_rev_parse_args, has_ext, inside_root, is_doc, list_docs,
    resolve_asset_path, resolve_doc_path, write_add_failed, write_commit_failed, write_committed, write_not_repo,
    PathError,
};
use prefrontal::protocol::{Activity, DocEntry, HealthFlag};
use prefrontal::scan::{
    activity_at, build_project, clean_md, derive_activity, detect_languages, git_info, health_flags, is_ignored,
    readme_tagline, scan_all_at, scan_project, skip_dir, Manifests, ProjectProbe, RawCommit, RawGit, RawHistory,
};
use prefrontal::search::{
    capped_limit, commit_log, file_kind, hit_details, hit_reads_file, index_documents, indexable_text, locate_snippet,
    query_terms, FileKind, WalkedFile,
};
use prefrontal::symbols::extract;

const DAY: i64 = 86_400;

fn no_manifests() -> Manifests {
    Manifests {
        cargo: false,
        cargo_nested: false,
        package_json: false,
        package_json_nested: false,
        pyproject: false,
        pyproject_nested: false,
        requirements: false,
        requirements_nested: false,
        setup_py: false,
        setup_py_nested: false,
        godot: false,
        godot_nested: false,
    }
}

fn raw_commit(id: &str, summary: &str, t: Option<i64>) -> RawCommit {
    RawCommit { id: id.to_string(), summary: summary.to_string(), time_unix: t }
}

#[test]
fn config_paths() {
    assert_eq!(join_path("/a", "b"), "/a/b");
    assert_eq!(join_path("/a/", "b"), "/a/b");
    assert_eq!(join_path("/a", "/b"), "/b");
    assert_eq!(expand_tilde_with("~/Projects", &Some("/home/u".to_string())), "/home/u/Projects");
    assert_eq!(expand_tilde_with("~/Projects", &None), "~/Projects");
    assert_eq!(expand_tilde_with("/abs", &Some("/home/u".to_string())), "/abs");
    assert_eq!(expand_tilde("/abs/x"), "/abs/x");
    assert_eq!(app_file(&Some("/c".to_string()), "config.toml"), Some("/c/prefrontal/config.toml".to_string()));
    assert_eq!(app_file(&None, "index"), None);
}

#[test]
fn config_roots_and_overrides() {
    let cfg = Config::default();
    let home = Some("/home/u".to_string());
    assert_eq!(cfg.root_candidates(&home), vec!["/home/u/Projects".to_string()]);
    assert_eq!(cfg.root_paths(&home, &vec![true]), vec!["/home/u/Projects".to_string()]);
    assert!(cfg.root_paths(&home, &vec![false]).is_empty());
    let mut c2 = Config::default();
    c2.overrides = vec![("x".to_string(), ProjectOverride::default())];
    assert_eq!(c2.override_for("x"), Some(0));
    assert_eq!(c2.override_for("y"), None);
}

#[test]
fn ignored_names() {
    let mut cfg = Config::default();
    assert!(is_ignored(".hidden", &cfg));
    assert!(is_ignored("node_modules", &cfg));
    assert!(!is_ignored("proj", &cfg));
    let mut o = ProjectOverride::default();
    o.ignore = true;
    cfg.overrides = vec![("proj".to_string(), o)];
    assert!(is_ignored("proj", &cfg));
    assert!(skip_dir("target"));
    assert!(!skip_dir("src"));
}

#[test]
fn activity_thresholds() {
    let t = Thresholds { active_days: 7, warm_days: 30, cold_days: 180, dirty_pile: 10 };
    let now = 1000 * DAY;
    assert_eq!(activity_at(now, now - 6 * DAY, &t), Activity::Active);
    assert_eq!(activity_at(now, now - 7 * DAY, &t), Activity::Warm);
    assert_eq!(activity_at(now, now - 29 * DAY, &t), Activity::Warm);
    assert_eq!(activity_at(now, now - 30 * DAY, &t), Activity::Cold);
    assert_eq!(activity_at(now, now - 180 * DAY, &t), Activity::Parked);
    assert_eq!(activity_at(now, now + DAY, &t), Activity::Active);
    assert_ne!(derive_activity(0, &Config::default()), Activity::Archived);
}

#[test]
fn health_flags_in_order() {
    assert_eq!(health_flags(&None, 10), vec![HealthFlag::NoGit]);
    let raw = RawGit { branch: None, history: None, remote: None, dirty_files: Some(12) };
    let g = git_info(&raw, &TimelineConfig { days: 14, max_per_project: 30 }, 0);
    assert_eq!(
        health_flags(&Some(g.clone()), 10),
        vec![HealthFlag::NoRemote, HealthFlag::NeverCommitted, HealthFlag::DirtyPile { count: 12 }]
    );
    assert_eq!(health_flags(&Some(g), 13), vec![HealthFlag::NoRemote, HealthFlag::NeverCommitted]);
}

#[test]
fn git_info_window_sort_and_cap() {
    let now = 100 * DAY;
    let walk = vec![
        raw_commit("aaaaaaaaaaaa", "old", Some(now - 20 * DAY)),
        raw_commit("bbbbbbbbbbbb", "mid", Some(now - 2 * DAY)),
        raw_commit("cccc", "unreadable", None),
        raw_commit("dddddddddddd", "new", Some(now - DAY)),
    ];
    let raw = RawGit {
        branch: Some("main".to_string()),
        history: Some(RawHistory { head_time: Some(now - DAY), walk }),
        remote: Some("git@x:y.git".to_string()),
        dirty_files: Some(0),
    };
    let g = git_info(&raw, &TimelineConfig { days: 14, max_per_project: 1 }, now);
    assert_eq!(g.commit_count, Some(4));
    assert_eq!(g.last_commit_unix, Some(now - DAY));
    assert_eq!(g.recent_commits.len(), 1);
    assert_eq!(g.recent_commits[0].summary, "new");
    assert_eq!(g.recent_commits[0].id, "dddddddd");
}

#[test]
fn languages_from_manifests() {
    let mut m = no_manifests();
    assert!(detect_languages(&m).is_empty());
    m.cargo_nested = true;
    m.requirements = true;
    m.godot = true;
    assert_eq!(detect_languages(&m), vec!["rust".to_string(), "python".to_string(), "godot".to_string()]);
}

#[test]
fn nested_manifests_count_for_every_language() {
    let mut m = no_manifests();
    m.package_json_nested = true;
    assert_eq!(detect_languages(&m), vec!["node".to_string()]);
    let mut m = no_manifests();
    m.setup_py_nested = true;
    assert_eq!(detect_languages(&m), vec!["python".to_string()]);
    let mut m = no_manifests();
    m.pyproject_nested = true;
    m.godot_nested = true;
    assert_eq!(detect_languages(&m), vec!["python".to_string(), "godot".to_string()]);
    let mut m = no_manifests();
    m.requirements_nested = true;
    m.package_json = true;
    assert_eq!(detect_languages(&m), vec!["node".to_string(), "python".to_string()]);
}

#[test]
fn readme_taglines() {
    assert_eq!(clean_md("<b>**Fast**</b> "), "Fast");
    let r = "# Title\n\n<p align=center>\n### *The agent's reading cortex*\n";
    assert_eq!(readme_tagline(r), Some("The agent's reading cortex".to_string()));
    assert_eq!(readme_tagline("# Title\n\nA small tool.\n"), Some("A small tool.".to_string()));
    assert_eq!(readme_tagline("# Only a title\n"), None);
}

fn probe(path: &str, mtime: i64) -> ProjectProbe {
    ProjectProbe {
        path: path.to_string(),
        dir_mtime: mtime,
        git: None,
        manifests: no_manifests(),
        readme: Some("# X\n\nTagline here\n".to_string()),
        has_readme: true,
        has_claude_md: false,
    }
}

#[test]
fn projects_built_from_probes() {
    let cfg = Config::default();
    let now = 100 * DAY;
    let p = build_project(probe("/r/a", now - 40 * DAY), "a".to_string(), &cfg, now);
    assert_eq!(p.activity, Activity::Cold);
    assert_eq!(p.health, vec![HealthFlag::NoGit]);
    assert_eq!(p.tagline, Some("Tagline here".to_string()));
    assert_eq!(p.last_touched_unix, now - 40 * DAY);
    let q = scan_project(probe("/r/b", 0), "b".to_string(), &cfg);
    assert_eq!(q.name, "b");
}

#[test]
fn scan_sorts_newest_first_and_drops_ignored() {
    let cfg = Config::default();
    let now = 100 * DAY;
    let entries = vec![
        ("old".to_string(), probe("/r/old", 1)),
        ("node_modules".to_string(), probe("/r/node_modules", 99)),
        ("new".to_string(), probe("/r/new", 50)),
    ];
    let ps = scan_all_at(&cfg, entries, now);
    let names: Vec<&str> = ps.iter().map(|p| p.name.as_str()).collect();
    assert_eq!(names, vec!["new", "old"]);
}

#[test]
fn rust_and_python_symbols() {
    let src = "pub fn alpha() {}\nstruct Beta;\n  async fn gamma(x: u8) -> u8 { x }\nlet x = 1;\n";
    let syms = extract("rs", src);
    let got: Vec<(String, String, u32)> = syms.iter().map(|s| (s.kind.clone(), s.name.clone(), s.line)).collect();
    assert_eq!(
        got,
        vec![
            ("fn".to_string(), "alpha".to_string(), 1),
            ("struct".to_string(), "Beta".to_string(), 2),
            ("fn".to_string(), "gamma".to_string(), 3),
        ]
    );
    assert_eq!(syms[2].signature, "async fn gamma(x: u8) -> u8 { x }");
    let py = extract("py", "class K:\n    def m(self):\n        pass\n");
    assert_eq!(py.len(), 2);
    assert_eq!(py[0].kind, "class");
    assert_eq!(py[1].name, "m");
    assert!(extract("txt", "fn x() {}").is_empty());
}

#[test]
fn doc_extensions_and_listing() {
    assert!(is_doc("notes/Idea.MD"));
    assert!(is_doc("a.txt"));
    assert!(!is_doc("a.rs"));
    assert!(has_ext("x.png", &vec!["png".to_string()]));
    let walked = vec![
        DocEntry { path: "b.md".to_string(), size: 1, modified_unix: 0 },
        DocEntry { path: "README.md".to_string(), size: 1, modified_unix: 0 },
        DocEntry { path: "a/z.md".to_string(), size: 1, modified_unix: 0 },
    ];
    let listed: Vec<String> = list_docs(walked).into_iter().map(|d| d.path).collect();
    assert_eq!(listed, vec!["README.md", "a/z.md", "b.md"]);
}

#[test]
fn doc_paths_are_checked() {
    assert_eq!(resolve_doc_path("/r/p", "notes/a.md").ok(), Some("/r/p/notes/a.md".to_string()));
    assert!(matches!(resolve_doc_path("/r/p", "/etc/a.md"), Err(PathError::NotInside)));
    assert!(matches!(resolve_doc_path("/r/p", "a/../../b.md"), Err(PathError::NotInside)));
    assert!(matches!(resolve_doc_path("/r/p", "./a.md"), Err(PathError::NotInside)));
    match resolve_doc_path("/r/p", "a.sh") {
        Err(e) => assert_eq!(e.message(), "only [\"md\", \"markdown\", \"txt\"] files"),
        Ok(_) => panic!("refused extension accepted"),
    }
    assert_eq!(resolve_asset_path("/r/p", "img/b.png").ok(), Some("/r/p/img/b.png".to_string()));
    assert!(resolve_asset_path("/r/p", "a.md").is_err());
    assert_eq!(PathError::Escapes.message(), "path escapes the project");
    assert!(inside_root("/r/p", "/r/p/a.md"));
    assert!(!inside_root("/r/p", "/r/pp/a.md"));
}

#[test]
fn write_reports_are_honest() {
    assert_eq!(commit_message("n.md"), "[prefrontal] note: n.md");
    assert_eq!(git_add_args("n.md"), vec!["add", "--", "n.md"]);
    assert_eq!(git_commit_args("n.md"), vec!["commit", "-m", "[prefrontal] note: n.md", "--", "n.md"]);
    assert_eq!(git_rev_parse_args(), vec!["rev-parse", "--short", "HEAD"]);
    let r = write_not_repo();
    assert!(r.saved && !r.committed);
    assert_eq!(r.detail, Some("not a git repository".to_string()));
    assert_eq!(write_add_failed("  fatal: x \n").detail, Some("fatal: x".to_string()));
    assert_eq!(write_commit_failed("nothing to commit, working tree clean", "").detail, Some("no changes to commit".to_string()));
    assert_eq!(write_commit_failed(" out ", "  ").detail, Some("out".to_string()));
    assert_eq!(write_commit_failed("out", " err ").detail, Some("err".to_string()));
    let ok = write_committed(Some((true, "abc1234\n".to_string())));
    assert!(ok.committed);
    assert_eq!(ok.commit_id, Some("abc1234".to_string()));
    assert_eq!(write_committed(Some((false, "x".to_string()))).commit_id, None);
    assert_eq!(write_committed(None).commit_id, None);
}

#[test]
fn indexable_files() {
    assert_eq!(file_kind("README.MD"), Some(FileKind::Doc));
    assert_eq!(file_kind("src/lib.rs"), Some(FileKind::Code));
    assert_eq!(file_kind("a.png"), None);
    assert_eq!(indexable_text(b"caf\xc3\xa9"), Some("café".to_string()));
    assert_eq!(indexable_text(b"bad \xff byte"), Some("bad \u{FFFD} byte".to_string()));
    assert_eq!(indexable_text(b"bin\x00ary"), None);
}

#[test]
fn commit_log_abbreviates_and_drops_unreadable() {
    let walk = vec![Some(("0123456789ab".to_string(), "first".to_string())), None, Some(("ff".to_string(), "second".to_string()))];
    assert_eq!(
        commit_log(&walk),
        vec![("01234567".to_string(), "first".to_string()), ("ff".to_string(), "second".to_string())]
    );
}

#[test]
fn documents_for_the_index() {
    let files = vec![
        WalkedFile { rel: "src/a.rs".to_string(), kind: FileKind::Code, content: Some("fn one() {}\n".to_string()) },
        WalkedFile { rel: "big.md".to_string(), kind: FileKind::Doc, content: None },
        WalkedFile { rel: "README.md".to_string(), kind: FileKind::Doc, content: Some("# hi".to_string()) },
    ];
    let commits = vec![("abcd1234".to_string(), "fix it".to_string())];
    let docs = index_documents("P", files, &commits);
    let kinds: Vec<&str> = docs.iter().map(|d| d.kind.as_str()).collect();
    assert_eq!(kinds, vec!["symbol", "code", "doc", "commit"]);
    assert_eq!(docs[0].content, "fn one");
    assert_eq!(docs[0].line, Some(1));
    assert_eq!(docs[0].stored_text, Some("fn one() {}".to_string()));
    assert_eq!(docs[3].path, "abcd1234");
    assert_eq!(docs[3].stored_text, Some("fix it".to_string()));
}

#[test]
fn snippets_and_hits() {
    assert_eq!(query_terms("  \"Debounce\" LOOP \"\" "), vec!["debounce".to_string(), "loop".to_string()]);
    let text = "\n  first line  \nsecond\nThe Debounce loop\n";
    let terms = vec!["debounce".to_string()];
    assert_eq!(locate_snippet(text, &terms), (Some(4), "The Debounce loop".to_string()));
    assert_eq!(locate_snippet(text, &vec!["zzz".to_string()]), (Some(2), "first line".to_string()));
    assert_eq!(locate_snippet("  \n", &terms), (None, String::new()));
    let long = "x".repeat(200);
    let (_, s) = locate_snippet(&long, &vec!["x".to_string()]);
    assert_eq!(s.chars().count(), 160);
    assert!(s.ends_with('…'));
    assert_eq!(hit_details("commit", "msg", None, &None, &terms), (None, "msg".to_string()));
    assert_eq!(hit_details("symbol", "fn x()", Some(7), &None, &terms), (Some(7), "fn x()".to_string()));
    assert_eq!(hit_details("doc", "", None, &None, &terms), (None, String::new()));
    assert_eq!(hit_details("doc", "", None, &Some("a\ndebounce here".to_string()), &terms), (Some(2), "debounce here".to_string()));
    assert_eq!(capped_limit(30), 30);
    assert_eq!(capped_limit(1000), 100);
}

#[test]
fn symbols_are_capped_per_file() {
    let src: String = (0..600).map(|i| format!("fn f{i}() {{}}\n")).collect();
    let syms = extract("rs", &src);
    assert_eq!(syms.len(), 500);
    assert_eq!(syms[499].name, "f499");
    let long = format!("fn g() {{ {} }}", "x".repeat(200));
    let one = extract("rs", &long);
    assert_eq!(one[0].signature.chars().count(), 120);
    assert!(one[0].signature.ends_with('…'));
}

#[test]
fn only_file_hits_read_their_file() {
    assert!(!hit_reads_file("commit"));
    assert!(!hit_reads_file("symbol"));
    assert!(hit_reads_file("code"));
    assert!(hit_reads_file("doc"));
}

#[test]
fn write_steps_stop_at_the_first_failure() {
    match write_step("notes/a.md", WriteStage::Saved { is_repo: false }) {
        WriteNext::Done(r) => {
            assert!(r.saved && !r.committed);
            assert_eq!(r.detail, Some("not a git repository".to_string()));
        }
        _ => panic!("outside a repository the save is the report"),
    }
    match write_step("notes/a.md", WriteStage::Saved { is_repo: true }) {
        WriteNext::Add(a) => assert_eq!(a, vec!["add".to_string(), "--".to_string(), "notes/a.md".to_string()]),
        _ => panic!("a repository adds the file first"),
    }
    match write_step("notes/a.md", WriteStage::Added { ok: false, stderr: " denied\n".to_string() }) {
        WriteNext::Done(r) => assert_eq!(r.detail, Some("denied".to_string())),
        _ => panic!("a failed add stops"),
    }
    match write_step("notes/a.md", WriteStage::Added { ok: true, stderr: String::new() }) {
        WriteNext::Commit(a) => assert_eq!(a[0], "commit"),
        _ => panic!("a good add commits"),
    }
    match write_step("notes/a.md", WriteStage::Committed { ok: false, stdout: "nothing to commit".to_string(), stderr: String::new() }) {
        WriteNext::Done(r) => assert_eq!(r.detail, Some("no changes to commit".to_string())),
        _ => panic!("a failed commit stops"),
    }
    match write_step("notes/a.md", WriteStage::Committed { ok: true, stdout: String::new(), stderr: String::new() }) {
        WriteNext::RevParse(a) => assert_eq!(a, vec!["rev-parse".to_string(), "--short".to_string(), "HEAD".to_string()]),
        _ => panic!("a commit reads its hash"),
    }
    match write_step("notes/a.md", WriteStage::RevParsed(Some((true, "abc1234\n".to_string())))) {
        WriteNext::Done(r) => {
            assert!(r.committed);
            assert_eq!(r.commit_id, Some("abc1234".to_string()));
            assert_eq!(r.detail, None);
        }
        _ => panic!("the hash ends the write"),
    }
}
