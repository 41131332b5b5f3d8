//! The cortex memory layer, seen from this side: the semantic card each
//! project becomes, the tags it is deduplicated by, whether a sync updates
//! or creates, and how replies on the stdio pipe are matched to requests.
//! The child process and its JSON pipe are the application's.

use vstd::prelude::*;

use crate::config::{Config, CortexConfig};
use crate::protocol::{opt_str_view, strings_view, Activity, CommitSummaryView, HealthFlag, Project, ProjectView};
use crate::render::char_lists;
use crate::text::{dec, extend_chars, extend_str, join, join_chars, push_dec, string_of};

verus! {

/// Every card carries this tag.
pub const CARD_TAG: &'static str = "prefrontal";

/// A card lists at most this many recent commits.
pub const CARD_COMMITS: usize = 8;

pub open spec fn activity_debug(a: Activity) -> Seq<char> {
    match a {
        Activity::Active => "Active"@,
        Activity::Warm => "Warm"@,
        Activity::Cold => "Cold"@,
        Activity::Parked => "Parked"@,
        Activity::Archived => "Archived"@,
    }
}

pub open spec fn flag_debug(f: HealthFlag) -> Seq<char> {
    match f {
        HealthFlag::NoGit => "NoGit"@,
        HealthFlag::NoRemote => "NoRemote"@,
        HealthFlag::NeverCommitted => "NeverCommitted"@,
        HealthFlag::DirtyPile { count } => "DirtyPile { count: "@ + dec(count as nat) + " }"@,
    }
}

/// `{:?}` of the flag list: `[A, B { .. }]`.
pub open spec fn flags_debug(fs: Seq<HealthFlag>) -> Seq<char> {
    "["@ + join(fs.map_values(|f: HealthFlag| flag_debug(f)), ", "@) + "]"@
}

/// "\n- <summary>" for each of the first eight commits.
pub open spec fn recent_work(cs: Seq<CommitSummaryView>) -> Seq<char>
    decreases cs.len(),
{
    if cs.len() == 0 {
        Seq::empty()
    } else {
        recent_work(cs.drop_last()) + "\n- "@ + cs.last().summary
    }
}

pub open spec fn branch_part(g: crate::protocol::GitInfoView) -> Seq<char> {
    match g.branch {
        Some(b) => "\nBranch "@ + b,
        None => Seq::empty(),
    }
}

pub open spec fn count_part(g: crate::protocol::GitInfoView) -> Seq<char> {
    match g.commit_count {
        Some(c) => ", "@ + dec(c as nat) + " commits"@,
        None => Seq::empty(),
    }
}

pub open spec fn dirty_part(g: crate::protocol::GitInfoView) -> Seq<char> {
    match g.dirty_files {
        Some(d) => if d > 0 {
            ", "@ + dec(d as nat) + " uncommitted files"@
        } else {
            Seq::empty()
        },
        None => Seq::empty(),
    }
}

pub open spec fn recent_part(g: crate::protocol::GitInfoView) -> Seq<char> {
    if g.recent_commits.len() > 0 {
        "\nRecent work:"@ + recent_work(
            g.recent_commits.subrange(
                0,
                if g.recent_commits.len() < CARD_COMMITS {
                    g.recent_commits.len() as int
                } else {
                    CARD_COMMITS as int
                },
            ),
        )
    } else {
        Seq::empty()
    }
}

/// Branch, commit count, uncommitted files (when any), recent work.
pub open spec fn git_part(p: ProjectView) -> Seq<char> {
    match p.git {
        None => Seq::empty(),
        Some(g) => branch_part(g) + count_part(g) + dirty_part(g) + recent_part(g),
    }
}

/// The semantic card a project becomes inside the cortex.
pub open spec fn summary_text(p: ProjectView) -> Seq<char> {
    head_text(p) + git_part(p) + (if p.health.len() > 0 {
        "\nHealth flags: "@ + flags_debug(p.health)
    } else {
        Seq::empty()
    })
}

fn activity_debug_str(a: Activity) -> (r: &'static str)
    ensures
        r@ == activity_debug(a),
{
    match a {
        Activity::Active => "Active",
        Activity::Warm => "Warm",
        Activity::Cold => "Cold",
        Activity::Parked => "Parked",
        Activity::Archived => "Archived",
    }
}

fn push_flags_debug(v: &mut Vec<char>, fs: &Vec<HealthFlag>)
    ensures
        final(v)@ == old(v)@ + flags_debug(fs@),
{
    let mut parts: Vec<Vec<char>> = Vec::new();
    let mut i: usize = 0;
    while i < fs.len()
        invariant
            i <= fs@.len(),
            parts.deep_view() == fs@.subrange(0, i as int).map_values(|f: HealthFlag| flag_debug(f)),
        decreases fs.len() - i,
    {
        let mut w: Vec<char> = Vec::new();
        match fs[i] {
            HealthFlag::NoGit => extend_str(&mut w, "NoGit"),
            HealthFlag::NoRemote => extend_str(&mut w, "NoRemote"),
            HealthFlag::NeverCommitted => extend_str(&mut w, "NeverCommitted"),
            HealthFlag::DirtyPile { count } => {
                extend_str(&mut w, "DirtyPile { count: ");
                push_dec(&mut w, count as u64);
                extend_str(&mut w, " }");
            },
        }
        let ghost before = parts.deep_view();
        proof {
            crate::text::lemma_char_vec_deep(w);
        }
        parts.push(w);
        assert(parts.deep_view() =~= before.push(flag_debug(fs@[i as int])));
        assert(parts.deep_view() =~= fs@.subrange(0, i + 1).map_values(|f: HealthFlag| flag_debug(f)));
        i += 1;
    }
    assert(fs@.subrange(0, fs@.len() as int) =~= fs@);
    extend_str(v, "[");
    let j = join_chars(&parts, &crate::text::chars_of(", "));
    extend_chars(v, &j);
    extend_str(v, "]");
}

pub open spec fn head_text(p: ProjectView) -> Seq<char> {
    "PROJECT "@ + p.name + (match p.tagline {
        Some(t) => " — "@ + t,
        None => Seq::empty(),
    }) + "\nStatus: "@ + activity_debug(p.activity) + ", languages: ["@ + join(p.languages, ", "@) + "], path: "@
        + p.path
}

fn push_head(v: &mut Vec<char>, p: &Project)
    ensures
        final(v)@ == old(v)@ + head_text(p@),
{
    let ghost v0 = v@;
    extend_str(v, "PROJECT ");
    extend_str(v, p.name.as_str());
    match &p.tagline {
        Some(t) => {
            extend_str(v, " — ");
            extend_str(v, t.as_str());
        },
        None => {},
    }
    extend_str(v, "\nStatus: ");
    extend_str(v, activity_debug_str(p.activity));
    extend_str(v, ", languages: [");
    let langs = join_chars(&char_lists(&p.languages), &crate::text::chars_of(", "));
    extend_chars(v, &langs);
    extend_str(v, "], path: ");
    extend_str(v, p.path.as_str());
    assert(v@ =~= v0 + head_text(p@));
}

fn push_recent(v: &mut Vec<char>, commits: &Vec<crate::protocol::CommitSummary>)
    requires
        commits@.len() > 0,
    ensures
        final(v)@ == old(v)@ + "\nRecent work:"@ + recent_work(
            crate::protocol::commits_view(commits@).subrange(
                0,
                if commits@.len() < CARD_COMMITS {
                    commits@.len() as int
                } else {
                    CARD_COMMITS as int
                },
            ),
        ),
{
    extend_str(v, "\nRecent work:");
    let n = if commits.len() < CARD_COMMITS {
        commits.len()
    } else {
        CARD_COMMITS
    };
    let ghost cs = crate::protocol::commits_view(commits@);
    let ghost base = v@;
    let mut i: usize = 0;
    assert(base + recent_work(cs.subrange(0, 0)) =~= base);
    while i < n
        invariant
            n <= commits@.len(),
            i <= n,
            cs == crate::protocol::commits_view(commits@),
            v@ == base + recent_work(cs.subrange(0, i as int)),
        decreases n - i,
    {
        assert(cs.subrange(0, i + 1).drop_last() =~= cs.subrange(0, i as int));
        assert(cs.subrange(0, i + 1).last() == commits@[i as int]@);
        let ghost before = v@;
        extend_str(v, "\n- ");
        extend_str(v, commits[i].summary.as_str());
        assert(v@ =~= base + recent_work(cs.subrange(0, i + 1)));
        i += 1;
    }
}

fn push_branch(v: &mut Vec<char>, g: &crate::protocol::GitInfo)
    ensures
        final(v)@ == old(v)@ + branch_part(g@),
{
    match &g.branch {
        Some(b) => {
            extend_str(v, "\nBranch ");
            extend_str(v, b.as_str());
        },
        None => {},
    }
}

fn push_count(v: &mut Vec<char>, g: &crate::protocol::GitInfo)
    ensures
        final(v)@ == old(v)@ + count_part(g@),
{
    match g.commit_count {
        Some(c) => {
            extend_str(v, ", ");
            push_dec(v, c as u64);
            extend_str(v, " commits");
        },
        None => {},
    }
}

fn push_dirty(v: &mut Vec<char>, g: &crate::protocol::GitInfo)
    ensures
        final(v)@ == old(v)@ + dirty_part(g@),
{
    match g.dirty_files {
        Some(d) => {
            if d > 0 {
                extend_str(v, ", ");
                push_dec(v, d as u64);
                extend_str(v, " uncommitted files");
            }
        },
        None => {},
    }
}

fn push_git_part(v: &mut Vec<char>, p: &Project)
    ensures
        final(v)@ == old(v)@ + git_part(p@),
{
    let ghost v0 = v@;
    match &p.git {
        Some(g) => {
            push_branch(v, g);
            push_count(v, g);
            push_dirty(v, g);
            if g.recent_commits.len() > 0 {
                push_recent(v, &g.recent_commits);
            }
            assert(v@ =~= v0 + git_part(p@));
        },
        None => {
            assert(v@ =~= v0 + git_part(p@));
        },
    }
}

/// The semantic card of a project.
pub fn summarize(p: &Project) -> (r: String)
    ensures
        r@ == summary_text(p@),
{
    let mut v: Vec<char> = Vec::new();
    push_head(&mut v, p);
    push_git_part(&mut v, p);
    let ghost mid = v@;
    if p.health.len() > 0 {
        extend_str(&mut v, "\nHealth flags: ");
        push_flags_debug(&mut v, &p.health);
    }
    assert(v@ =~= summary_text(p@));
    string_of(&v)
}

/// `project:<name>`: the tag a project's card is found again by.
pub fn project_tag(name: &str) -> (r: String)
    ensures
        r@ == "project:"@ + name@,
{
    let mut v: Vec<char> = Vec::new();
    extend_str(&mut v, "project:");
    extend_str(&mut v, name);
    string_of(&v)
}

/// The tags a card is stored and looked up under.
pub fn card_tags(name: &str) -> (r: Vec<String>)
    ensures
        strings_view(r@) == seq![CARD_TAG@, "project:"@ + name@],
{
    let mut r: Vec<String> = Vec::new();
    r.push(String::from_str(CARD_TAG));
    r.push(project_tag(name));
    assert(strings_view(r@) =~= seq![CARD_TAG@, "project:"@ + name@]);
    r
}

/// A field of a JSON object, as the lookup sees it.
#[derive(Clone, Debug)]
pub enum JsonField {
    /// The key is not there.
    Absent,
    /// The key holds a string.
    Text(String),
    /// The key holds something else.
    Other,
}

/// `row.get(k).or_else(|| row.memory.get(k)).and_then(as_str)`: a key
/// present at the top decides, even when it is not a string.
pub open spec fn field_text(top: JsonField, nested: JsonField) -> Option<Seq<char>> {
    match top {
        JsonField::Text(s) => Some(s@),
        JsonField::Other => None,
        JsonField::Absent => match nested {
            JsonField::Text(s) => Some(s@),
            _ => None,
        },
    }
}

fn field_text_exec(top: &JsonField, nested: &JsonField) -> (r: Option<String>)
    ensures
        opt_str_view(r) == field_text(*top, *nested),
{
    match top {
        JsonField::Text(s) => Some(crate::protocol::copy_string(s)),
        JsonField::Other => None,
        JsonField::Absent => match nested {
            JsonField::Text(s) => Some(crate::protocol::copy_string(s)),
            _ => None,
        },
    }
}

/// The id of the card already stored, read from the first lookup row:
/// `id`, else `memory_id`, each at the top or under `memory`.
pub open spec fn existing_id_spec(id_top: JsonField, id_nested: JsonField, mid_top: JsonField, mid_nested: JsonField) -> Option<Seq<char>> {
    match field_text(id_top, id_nested) {
        Some(s) => Some(s),
        None => field_text(mid_top, mid_nested),
    }
}

pub fn existing_id(id_top: &JsonField, id_nested: &JsonField, mid_top: &JsonField, mid_nested: &JsonField) -> (r: Option<String>)
    ensures
        opt_str_view(r) == existing_id_spec(*id_top, *id_nested, *mid_top, *mid_nested),
{
    match field_text_exec(id_top, id_nested) {
        Some(s) => Some(s),
        None => field_text_exec(mid_top, mid_nested),
    }
}

/// The fields a recall hit is read from, at one level of a reply row.
#[derive(Clone, Debug)]
pub struct HitFields {
    pub content: JsonField,
    pub agent_id: JsonField,
    /// The items of `tags` when it is an array.
    pub tags: Option<Vec<JsonField>>,
}

/// A field as text: a string's own text, anything else empty.
pub open spec fn text_or_empty(f: JsonField) -> Seq<char> {
    match f {
        JsonField::Text(s) => s@,
        _ => Seq::empty(),
    }
}

/// The strings among the items, in order.
pub open spec fn tag_texts(items: Seq<JsonField>) -> Seq<Seq<char>>
    decreases items.len(),
{
    if items.len() == 0 {
        Seq::empty()
    } else {
        let rest = tag_texts(items.drop_last());
        match items.last() {
            JsonField::Text(s) => rest.push(s@),
            _ => rest,
        }
    }
}

/// The tags of a level: the strings of its array, none without one.
pub open spec fn level_tags(f: HitFields) -> Seq<Seq<char>> {
    match f.tags {
        Some(v) => tag_texts(v@),
        None => Seq::empty(),
    }
}

fn text_of(f: &JsonField) -> (r: String)
    ensures
        r@ == text_or_empty(*f),
{
    match f {
        JsonField::Text(s) => crate::protocol::copy_string(s),
        _ => String::new(),
    }
}

/// A recall hit's content, agent and tags: read from the row's `memory`
/// when it has that key (rows come both nested and flat), else from the
/// row itself; missing or non-string fields read as empty.
pub fn recall_hit(row: &HitFields, memory: &Option<HitFields>) -> (r: (String, String, Vec<String>))
    ensures
        ({
            let level = match *memory {
                Some(m) => m,
                None => *row,
            };
            &&& r.0@ == text_or_empty(level.content)
            &&& r.1@ == text_or_empty(level.agent_id)
            &&& strings_view(r.2@) == level_tags(level)
        }),
{
    let level = match memory {
        Some(m) => m,
        None => row,
    };
    let mut tags: Vec<String> = Vec::new();
    match &level.tags {
        Some(items) => {
            let mut i: usize = 0;
            while i < items.len()
                invariant
                    i <= items@.len(),
                    strings_view(tags@) == tag_texts(items@.subrange(0, i as int)),
                decreases items.len() - i,
            {
                assert(items@.subrange(0, i + 1).drop_last() =~= items@.subrange(0, i as int));
                match &items[i] {
                    JsonField::Text(t) => {
                        let ghost before = strings_view(tags@);
                        tags.push(crate::protocol::copy_string(t));
                        assert(strings_view(tags@) =~= before.push(t@));
                    },
                    _ => {},
                }
                i += 1;
            }
            assert(items@.subrange(0, items@.len() as int) =~= items@);
        },
        None => {
            assert(strings_view(tags@) =~= Seq::<Seq<char>>::empty());
        },
    }
    (text_of(&level.content), text_of(&level.agent_id), tags)
}

/// What a sync does with a project's card.
#[derive(Clone, Debug)]
pub enum SyncAction {
    /// A card exists: replace its content.
    Update { memory_id: String, content: String },
    /// None yet: remember a new shared semantic card under the card tags.
    Remember { content: String, tags: Vec<String> },
}

/// Upsert: update the card found, or create one. `true` = created.
pub fn sync_action(p: &Project, existing: Option<String>) -> (r: (SyncAction, bool))
    ensures
        match existing {
            Some(id) => r.1 == false && match r.0 {
                SyncAction::Update { memory_id, content } => memory_id@ == id@ && content@ == summary_text(p@),
                _ => false,
            },
            None => r.1 == true && match r.0 {
                SyncAction::Remember { content, tags } => content@ == summary_text(p@) && strings_view(tags@)
                    == seq![CARD_TAG@, "project:"@ + p@.name],
                _ => false,
            },
        },
{
    let content = summarize(p);
    match existing {
        Some(id) => (SyncAction::Update { memory_id: id, content }, false),
        None => (SyncAction::Remember { content, tags: card_tags(p.name.as_str()) }, true),
    }
}

// ---------------------------------------------------------------------
// The store a sync works on
// ---------------------------------------------------------------------

/// A memory in the cortex, as the sync sees it.
pub struct MemoryView {
    pub id: Seq<char>,
    pub content: Seq<char>,
    pub tags: Seq<Seq<char>>,
}

/// The tags a project's card is stored and looked up under.
pub open spec fn card_tags_spec(name: Seq<char>) -> Seq<Seq<char>> {
    seq![CARD_TAG@, "project:"@ + name]
}

/// The memory carries every one of the tags.
pub open spec fn carries(m: MemoryView, tags: Seq<Seq<char>>) -> bool {
    forall|i: int| 0 <= i < tags.len() ==> m.tags.contains(#[trigger] tags[i])
}

/// How many memories carry the tags.
pub open spec fn carrying(store: Seq<MemoryView>, tags: Seq<Seq<char>>) -> nat
    decreases store.len(),
{
    if store.len() == 0 {
        0
    } else {
        carrying(store.drop_first(), tags) + if carries(store[0], tags) {
            1nat
        } else {
            0nat
        }
    }
}

/// What a `find_by_tags` lookup with limit 1 yields: the id of the first
/// memory carrying the tags.
pub open spec fn found(store: Seq<MemoryView>, tags: Seq<Seq<char>>) -> Option<Seq<char>>
    decreases store.len(),
{
    if store.len() == 0 {
        None
    } else if carries(store[0], tags) {
        Some(store[0].id)
    } else {
        found(store.drop_first(), tags)
    }
}

/// The store after `update_memory`: the memory with that id gets the new
/// content and keeps its tags.
pub open spec fn updated(store: Seq<MemoryView>, id: Seq<char>, content: Seq<char>) -> Seq<MemoryView> {
    store.map_values(
        |m: MemoryView|
            if m.id == id {
                MemoryView { id: m.id, content, tags: m.tags }
            } else {
                m
            },
    )
}

/// The store after one sync of `p` that found `existing`: the card found is
/// updated, or a new card (id `fresh`) is remembered under the card tags.
pub open spec fn synced(store: Seq<MemoryView>, p: ProjectView, existing: Option<Seq<char>>, fresh: Seq<char>) -> Seq<
    MemoryView,
> {
    match existing {
        Some(id) => updated(store, id, summary_text(p)),
        None => store.push(MemoryView { id: fresh, content: summary_text(p), tags: card_tags_spec(p.name) }),
    }
}

proof fn lemma_found_iff_carrying(store: Seq<MemoryView>, tags: Seq<Seq<char>>)
    ensures
        found(store, tags) is Some <==> carrying(store, tags) > 0,
    decreases store.len(),
{
    if store.len() > 0 {
        lemma_found_iff_carrying(store.drop_first(), tags);
    }
}

proof fn lemma_carrying_updated(store: Seq<MemoryView>, tags: Seq<Seq<char>>, id: Seq<char>, content: Seq<char>)
    ensures
        carrying(updated(store, id, content), tags) == carrying(store, tags),
    decreases store.len(),
{
    if store.len() > 0 {
        lemma_carrying_updated(store.drop_first(), tags, id, content);
        assert(updated(store, id, content).drop_first() =~= updated(store.drop_first(), id, content));
        let m = store[0];
        let u = updated(store, id, content)[0];
        assert(u.tags == m.tags);
        assert(carries(u, tags) == carries(m, tags));
    }
}

proof fn lemma_carrying_push(store: Seq<MemoryView>, tags: Seq<Seq<char>>, m: MemoryView)
    ensures
        carrying(store.push(m), tags) == carrying(store, tags) + if carries(m, tags) {
            1nat
        } else {
            0nat
        },
    decreases store.len(),
{
    if store.len() == 0 {
        assert(store.push(m).drop_first() =~= Seq::<MemoryView>::empty());
        assert(store.push(m)[0] == m);
        assert(carrying(Seq::<MemoryView>::empty(), tags) == 0);
    } else {
        lemma_carrying_push(store.drop_first(), tags, m);
        assert(store.push(m).drop_first() =~= store.drop_first().push(m));
        assert(store.push(m)[0] == store[0]);
    }
}

/// Syncing is a tag-deduplicated upsert, given a cortex whose tag lookup
/// finds the memories stored with those tags: after a sync exactly as many
/// memories carry the card tags as before, or one if none did, so no
/// duplicate is ever created; and the next sync of the project finds that
/// card, so it updates (reports "not created") instead of creating another.
/// Starting from at most one card, exactly one remains.
pub proof fn law_sync_is_an_upsert(store: Seq<MemoryView>, p: ProjectView, fresh: Seq<char>, fresh2: Seq<char>)
    ensures
        ({
            let tags = card_tags_spec(p.name);
            let s1 = synced(store, p, found(store, tags), fresh);
            &&& carrying(s1, tags) == if carrying(store, tags) == 0 {
                1
            } else {
                carrying(store, tags)
            }
            &&& found(s1, tags) is Some
            &&& carrying(synced(s1, p, found(s1, tags), fresh2), tags) == carrying(s1, tags)
            &&& carrying(store, tags) <= 1 ==> carrying(s1, tags) == 1
        }),
{
    let tags = card_tags_spec(p.name);
    let card = MemoryView { id: fresh, content: summary_text(p), tags: card_tags_spec(p.name) };
    assert(carries(card, tags)) by {
        assert forall|i: int| 0 <= i < tags.len() implies card.tags.contains(#[trigger] tags[i]) by {
            assert(card.tags[i] == tags[i]);
        }
    }
    lemma_found_iff_carrying(store, tags);
    match found(store, tags) {
        Some(id) => {
            lemma_carrying_updated(store, tags, id, summary_text(p));
        },
        None => {
            lemma_carrying_push(store, tags, card);
        },
    }
    let s1 = synced(store, p, found(store, tags), fresh);
    lemma_found_iff_carrying(s1, tags);
    match found(s1, tags) {
        Some(id) => {
            lemma_carrying_updated(s1, tags, id, summary_text(p));
        },
        None => {},
    }
}

/// Spawning needs a configured command.
pub fn check_spawn(cfg: &CortexConfig) -> (r: Result<(), String>)
    ensures
        r is Ok <==> cfg.command@.len() > 0,
        match r {
            Err(m) => m@ == "cortex.command is not configured"@,
            Ok(_) => true,
        },
{
    if crate::text::chars_of(cfg.command.as_str()).len() == 0 {
        Err(String::from_str("cortex.command is not configured"))
    } else {
        Ok(())
    }
}

/// The CLI's cortex commands need the feature on; the cortex settings to
/// spawn with, or the message to stop with.
pub fn cortex_client(cfg: &Config) -> (r: Result<&CortexConfig, String>)
    ensures
        r is Ok <==> cfg.features.cerebro,
        match r {
            Ok(c) => *c == cfg.cortex,
            Err(m) => m@ == "cortex layer disabled — set features.cerebro = true and [cortex] command in the config"@,
        },
{
    if cfg.features.cerebro {
        Ok(&cfg.cortex)
    } else {
        Err(String::from_str("cortex layer disabled — set features.cerebro = true and [cortex] command in the config"))
    }
}

/// What to do with a line read from the pipe while awaiting reply `id`.
#[derive(Clone, Copy, PartialEq, Eq, Structural, Debug)]
pub enum ReplyStep {
    /// Not JSON, a notification, or another id: read on.
    Skip,
    /// The reply carries an error.
    Fail,
    /// The reply: its result is the answer.
    Done,
}

pub open spec fn reply_step_spec(expected: u64, parsed: bool, id: Option<u64>, has_error: bool) -> ReplyStep {
    if !parsed || id != Some(expected) {
        ReplyStep::Skip
    } else if has_error {
        ReplyStep::Fail
    } else {
        ReplyStep::Done
    }
}

pub fn reply_step(expected: u64, parsed: bool, id: Option<u64>, has_error: bool) -> (r: ReplyStep)
    ensures
        r == reply_step_spec(expected, parsed, id, has_error),
{
    if !parsed {
        return ReplyStep::Skip;
    }
    match id {
        Some(i) => if i != expected {
            ReplyStep::Skip
        } else if has_error {
            ReplyStep::Fail
        } else {
            ReplyStep::Done
        },
        None => ReplyStep::Skip,
    }
}

/// A tool result flagged `isError` becomes this failure.
pub fn tool_failure(tool: &str, text: &str) -> (r: String)
    ensures
        r@ == "cortex tool "@ + tool@ + " failed: "@ + text@,
{
    let mut v: Vec<char> = Vec::new();
    extend_str(&mut v, "cortex tool ");
    extend_str(&mut v, tool);
    extend_str(&mut v, " failed: ");
    extend_str(&mut v, text);
    string_of(&v)
}

} // verus!
