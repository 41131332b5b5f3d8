use prefrontal::client::{
    doc_route, docs_route, encode_path, normalize_base, recall_route, search_route, url, urlencode, ws_url,
    DEFAULT_BASE,
};
use prefrontal::config::Config;
use prefrontal::cortex::{
    card_tags, check_spawn, cortex_client, existing_id, project_tag, reply_step, summarize, sync_action,
    recall_hit, tool_failure, HitFields, JsonField, ReplyStep, SyncAction,
};
use prefrontal::daemon::{
    cortex_enabled, default_limit, lookup_project, mime_type, sanitize_html, session_step, Broadcast,
    SessionStep,
};
use prefrontal::protocol::{Activity, CommitSummary, Event, GitInfo, HealthFlag, Project};

fn project() -> Project {
    Project {
        name: "Occipital-RS".to_string(),
        path: "/r/Occipital-RS".to_string(),
        languages: vec!["rust".to_string(), "python".to_string()],
        activity: Activity::Active,
        git: Some(GitInfo {
            branch: Some("main".to_string()),
            last_commit_unix: Some(5),
            dirty_files: Some(3),
            commit_count: Some(45),
            remote: None,
            recent_commits: (0..10)
                .map(|i| CommitSummary { id: format!("{i}"), summary: format!("c{i}"), time_unix: 100 - i })
                .collect(),
        }),
        tagline: Some("reading cortex".to_string()),
        tags: vec![],
        health: vec![HealthFlag::NoRemote, HealthFlag::DirtyPile { count: 44 }],
        last_touched_unix: 5,
        has_readme: true,
        has_claude_md: true,
    }
}

#[test]
fn summary_card_text() {
    let expected = "PROJECT Occipital-RS — reading cortex\n\
Status: Active, languages: [rust, python], path: /r/Occipital-RS\n\
Branch main, 45 commits, 3 uncommitted files\n\
Recent work:\n- c0\n- c1\n- c2\n- c3\n- c4\n- c5\n- c6\n- c7\n\
Health flags: [NoRemote, DirtyPile { count: 44 }]";
    assert_eq!(summarize(&project()), expected);
}

#[test]
fn summary_card_minimal() {
    let mut p = project();
    p.tagline = None;
    p.git = None;
    p.health = vec![];
    p.languages = vec![];
    p.activity = Activity::Parked;
    assert_eq!(summarize(&p), "PROJECT Occipital-RS\nStatus: Parked, languages: [], path: /r/Occipital-RS");
    let mut q = project();
    if let Some(g) = q.git.as_mut() {
        g.dirty_files = Some(0);
        g.branch = None;
        g.commit_count = None;
        g.recent_commits = vec![];
    }
    q.health = vec![];
    assert!(summarize(&q).ends_with("path: /r/Occipital-RS"));
}

#[test]
fn tags_and_sync() {
    assert_eq!(project_tag("X"), "project:X");
    assert_eq!(card_tags("X"), vec!["prefrontal".to_string(), "project:X".to_string()]);
    let p = project();
    match sync_action(&p, Some("m-1".to_string())) {
        (SyncAction::Update { memory_id, content }, created) => {
            assert_eq!(memory_id, "m-1");
            assert_eq!(content, summarize(&p));
            assert!(!created);
        }
        _ => panic!("expected an update"),
    }
    match sync_action(&p, None) {
        (SyncAction::Remember { tags, .. }, created) => {
            assert_eq!(tags, vec!["prefrontal".to_string(), "project:Occipital-RS".to_string()]);
            assert!(created);
        }
        _ => panic!("expected a new card"),
    }
}

#[test]
fn existing_card_id_lookup() {
    let t = |s: &str| JsonField::Text(s.to_string());
    assert_eq!(existing_id(&t("a"), &t("b"), &t("c"), &t("d")), Some("a".to_string()));
    assert_eq!(existing_id(&JsonField::Absent, &t("b"), &t("c"), &t("d")), Some("b".to_string()));
    // a present but non-text top-level id blocks the nested one
    assert_eq!(existing_id(&JsonField::Other, &t("b"), &t("c"), &t("d")), Some("c".to_string()));
    assert_eq!(existing_id(&JsonField::Absent, &JsonField::Absent, &JsonField::Absent, &t("d")), Some("d".to_string()));
    assert_eq!(existing_id(&JsonField::Absent, &JsonField::Absent, &JsonField::Absent, &JsonField::Absent), None);
}

#[test]
fn spawn_and_feature_gates() {
    let mut cfg = Config::default();
    assert_eq!(check_spawn(&cfg.cortex), Err("cortex.command is not configured".to_string()));
    assert!(cortex_client(&cfg).is_err());
    assert_eq!(
        cortex_client(&cfg).err(),
        Some("cortex layer disabled — set features.cerebro = true and [cortex] command in the config".to_string())
    );
    assert!(!cortex_enabled(&cfg));
    cfg.features.cerebro = true;
    cfg.cortex.command = "cerebro-mcp".to_string();
    assert_eq!(check_spawn(&cfg.cortex), Ok(()));
    assert_eq!(cortex_client(&cfg).map(|c| c.top_k), Ok(10));
    assert!(cortex_enabled(&cfg));
}

#[test]
fn replies_are_matched_by_id() {
    assert_eq!(reply_step(3, false, Some(3), false), ReplyStep::Skip);
    assert_eq!(reply_step(3, true, None, false), ReplyStep::Skip);
    assert_eq!(reply_step(3, true, Some(2), true), ReplyStep::Skip);
    assert_eq!(reply_step(3, true, Some(3), true), ReplyStep::Fail);
    assert_eq!(reply_step(3, true, Some(3), false), ReplyStep::Done);
    assert_eq!(tool_failure("recall", "boom"), "cortex tool recall failed: boom");
}

#[test]
fn percent_encoding() {
    assert_eq!(urlencode("a b/ü"), "a%20b%2F%C3%BC");
    assert_eq!(urlencode("Az09-_.~"), "Az09-_.~");
    assert_eq!(urlencode(""), "");
    assert_eq!(encode_path("docs/my note.md"), "docs/my%20note.md");
    assert_eq!(encode_path("a//b"), "a//b");
}

#[test]
fn base_and_routes() {
    assert_eq!(normalize_base("http://h:1///"), "http://h:1");
    assert_eq!(normalize_base(DEFAULT_BASE), "http://127.0.0.1:7320");
    assert_eq!(ws_url("http://127.0.0.1:7320"), "ws://127.0.0.1:7320/ws");
    assert_eq!(ws_url("https://h"), "wss://h/ws");
    assert_eq!(ws_url("h"), "h/ws");
    assert_eq!(search_route("fn main", 10), "/api/search?q=fn%20main&limit=10");
    assert_eq!(recall_route("x&y"), "/api/cortex?q=x%26y");
    assert_eq!(docs_route("My Proj"), "/api/docs/My%20Proj");
    assert_eq!(doc_route("P", "a b/c.md"), "/api/doc/P/a%20b/c.md");
    assert_eq!(url("http://h", "/api/projects"), "http://h/api/projects");
}

#[test]
fn daemon_defaults_and_lookup() {
    assert_eq!(default_limit(), 30);
    let ps = vec![project()];
    assert_eq!(lookup_project(&ps, "Occipital-RS"), Ok("/r/Occipital-RS".to_string()));
    assert_eq!(lookup_project(&ps, "nope"), Err((404, "unknown project: nope".to_string())));
}

#[test]
fn content_types_by_extension() {
    assert_eq!(mime_type("img/banner.PNG"), "image/png");
    assert_eq!(mime_type("a.jpeg"), "image/jpeg");
    assert_eq!(mime_type("a.jpg"), "image/jpeg");
    assert_eq!(mime_type("a.svg"), "image/svg+xml");
    assert_eq!(mime_type("a.avif"), "image/avif");
    assert_eq!(mime_type("a.tar.gz"), "application/octet-stream");
    assert_eq!(mime_type("noext"), "application/octet-stream");
}

#[test]
fn html_is_cleaned_of_active_content() {
    assert_eq!(sanitize_html("XSS<script>attack</script>"), "XSS");
    let kept = sanitize_html("<p onclick=\"x()\">hi</p>");
    assert_eq!(kept, "<p>hi</p>");
}

#[test]
fn websocket_session_steps() {
    assert!(matches!(session_step(Broadcast::Lagged), SessionStep::SendSnapshot));
    assert!(matches!(session_step(Broadcast::Closed), SessionStep::Stop));
    match session_step(Broadcast::Frame(Event::ProjectRemoved { path: "/p".to_string() })) {
        SessionStep::Send(Event::ProjectRemoved { path }) => assert_eq!(path, "/p"),
        _ => panic!("expected the frame"),
    }
}

#[test]
fn encoded_paths_keep_their_pieces() {
    let e = encode_path("my dir/a%b.md");
    let pieces: Vec<&str> = e.split('/').collect();
    assert_eq!(pieces, vec!["my%20dir", "a%25b.md"]);
    assert!(!urlencode("x/y?z&w#v").contains(['/', '?', '&', '#']));
}

#[test]
fn recall_hits_read_the_nested_memory_first() {
    let flat = HitFields {
        content: JsonField::Text("flat".to_string()),
        agent_id: JsonField::Other,
        tags: Some(vec![JsonField::Text("a".to_string()), JsonField::Other, JsonField::Text("b".to_string())]),
    };
    let (c, a, t) = recall_hit(&flat, &None);
    assert_eq!(c, "flat");
    assert_eq!(a, "");
    assert_eq!(t, vec!["a".to_string(), "b".to_string()]);
    let nested = HitFields { content: JsonField::Text("inner".to_string()), agent_id: JsonField::Absent, tags: None };
    let (c, a, t) = recall_hit(&flat, &Some(nested));
    assert_eq!(c, "inner");
    assert_eq!(a, "");
    assert!(t.is_empty());
}
