//! The watcher's decisions: which project an event path belongs to, which
//! directories get watches, the quiet period each project waits before its
//! rescan, and what a rescan result does to the project list and to the
//! clients. The watches, the clock and the channel are the application's.

use vstd::prelude::*;

use crate::config::{join_path, path_join, Config};
use crate::docs::{file_name, last_name, segments, split_segments};
use crate::protocol::{copy_project, copy_string, opt_str_view, project_eq, projects_view, string_eq, strings_view, Event, Project, ProjectView};
use crate::scan::{ignored, is_ignored, is_skip_dir, skip_dir};
use crate::sort::{by_touched, is_desc, lemma_sort_desc, sort_desc, sort_projects_desc};
use crate::text::{chars_eq, chars_of, lemma_char_vec_deep, slice_chars, string_of};

verus! {

/// A project is rescanned this long (ms) after its *last* event, so a git
/// checkout or a save-storm collapses into one rescan.
pub const QUIET_MS: u64 = 600;

/// Watches stop this many directory levels below a project.
pub const MAX_WATCH_DEPTH: u32 = 8;

// ---------------------------------------------------------------------
// Path components
// ---------------------------------------------------------------------

/// The pieces of a path that are names: empty pieces (repeated or trailing
/// `/`) and `.` pieces are not components.
pub open spec fn normal_parts(segs: Seq<Seq<char>>) -> Seq<Seq<char>>
    decreases segs.len(),
{
    if segs.len() == 0 {
        Seq::empty()
    } else {
        let rest = normal_parts(segs.drop_last());
        let l = segs.last();
        if l.len() > 0 && l != "."@ {
            rest.push(l)
        } else {
            rest
        }
    }
}

/// `Path::components` of a Unix path, each written as text: `/` for the
/// root, `.` for a leading current directory, then the names in order.
pub open spec fn components(p: Seq<char>) -> Seq<Seq<char>> {
    let segs = segments(p);
    (if p.len() > 0 && p[0] == '/' {
        seq!["/"@]
    } else if segs.len() > 0 && segs[0] == "."@ {
        seq!["."@]
    } else {
        Seq::empty()
    }) + normal_parts(segs)
}

pub fn components_of(p: &str) -> (r: Vec<Vec<char>>)
    ensures
        r.deep_view() == components(p@),
{
    proof {
        reveal_strlit(".");
        reveal_strlit("/");
    }
    let c = chars_of(p);
    let segs = split_segments(&c);
    let dot = chars_of(".");
    let mut r: Vec<Vec<char>> = Vec::new();
    if c.len() > 0 && c[0] == '/' {
        let slash = chars_of("/");
        proof {
            lemma_char_vec_deep(slash);
        }
        r.push(slash);
        assert(r.deep_view() =~= seq!["/"@]);
    } else if segs.len() > 0 && chars_eq(&segs[0], &dot) {
        let d = chars_of(".");
        proof {
            lemma_char_vec_deep(d);
            lemma_char_vec_deep(segs@[0]);
        }
        r.push(d);
        assert(r.deep_view() =~= seq!["."@]);
    } else {
        proof {
            if segs.len() > 0 {
                lemma_char_vec_deep(segs@[0]);
            }
        }
        assert(r.deep_view() =~= Seq::<Seq<char>>::empty());
    }
    let ghost head = r.deep_view();
    let ghost sv = segs.deep_view();
    let mut i: usize = 0;
    assert(sv.subrange(0, 0) =~= Seq::<Seq<char>>::empty());
    while i < segs.len()
        invariant
            i <= segs@.len(),
            sv == segs.deep_view(),
            sv.len() == segs@.len(),
            dot@ == "."@,
            r.deep_view() == head + normal_parts(sv.subrange(0, i as int)),
        decreases segs.len() - i,
    {
        proof {
            lemma_char_vec_deep(segs@[i as int]);
            assert(sv.subrange(0, i + 1).drop_last() =~= sv.subrange(0, i as int));
        }
        let ghost before = r.deep_view();
        if segs[i].len() > 0 && !chars_eq(&segs[i], &dot) {
            let piece = slice_chars(&segs[i], 0, segs[i].len());
            assert(piece@ =~= sv[i as int]);
            proof {
                lemma_char_vec_deep(piece);
            }
            r.push(piece);
            assert(r.deep_view() =~= before.push(sv[i as int]));
        }
        i += 1;
    }
    assert(sv.subrange(0, sv.len() as int) =~= sv);
    r
}

/// `root`'s components begin `path`'s (`Path::strip_prefix` succeeds).
pub open spec fn comps_prefix(root: Seq<Seq<char>>, path: Seq<Seq<char>>) -> bool {
    root.len() <= path.len() && path.subrange(0, root.len() as int) == root
}

fn comps_prefix_exec(root: &Vec<Vec<char>>, path: &Vec<Vec<char>>) -> (r: bool)
    ensures
        r == comps_prefix(root.deep_view(), path.deep_view()),
{
    if root.len() > path.len() {
        return false;
    }
    let ghost rv = root.deep_view();
    let ghost pv = path.deep_view();
    let mut j: usize = 0;
    while j < root.len()
        invariant
            root@.len() <= path@.len(),
            j <= root@.len(),
            rv == root.deep_view(),
            pv == path.deep_view(),
            forall|q: int| 0 <= q < j ==> rv[q] == pv[q],
        decreases root.len() - j,
    {
        proof {
            lemma_char_vec_deep(root@[j as int]);
            lemma_char_vec_deep(path@[j as int]);
        }
        if !chars_eq(&root[j], &path[j]) {
            assert(pv.subrange(0, rv.len() as int)[j as int] != rv[j as int]);
            return false;
        }
        j += 1;
    }
    assert(pv.subrange(0, rv.len() as int) =~= rv);
    true
}

/// The project directory (an immediate child of a root) that an event path
/// lives in: the first root that is a component prefix of the path decides;
/// the path itself being that root gives none.
pub open spec fn project_of_spec(path: Seq<char>, roots: Seq<Seq<char>>) -> Option<Seq<char>>
    decreases roots.len(),
{
    if roots.len() == 0 {
        None
    } else {
        let rc = components(roots[0]);
        let pc = components(path);
        if comps_prefix(rc, pc) {
            if pc.len() > rc.len() {
                Some(path_join(roots[0], pc[rc.len() as int]))
            } else {
                None
            }
        } else {
            project_of_spec(path, roots.drop_first())
        }
    }
}

pub fn project_of(path: &str, roots: &Vec<String>) -> (r: Option<String>)
    ensures
        opt_str_view(r) == project_of_spec(path@, strings_view(roots@)),
{
    let ghost rv = strings_view(roots@);
    let pc = components_of(path);
    let mut i: usize = 0;
    assert(rv.subrange(0, rv.len() as int) =~= rv);
    while i < roots.len()
        invariant
            i <= roots@.len(),
            rv == strings_view(roots@),
            pc.deep_view() == components(path@),
            project_of_spec(path@, rv) == project_of_spec(path@, rv.subrange(i as int, rv.len() as int)),
        decreases roots.len() - i,
    {
        let ghost rest = rv.subrange(i as int, rv.len() as int);
        assert(rest[0] == roots@[i as int]@);
        assert(rest.drop_first() =~= rv.subrange(i + 1, rv.len() as int));
        let rc = components_of(roots[i].as_str());
        if comps_prefix_exec(&rc, &pc) {
            if pc.len() > rc.len() {
                proof {
                    lemma_char_vec_deep(pc@[rc@.len() as int]);
                }
                let first = string_of(&pc[rc.len()]);
                return Some(join_path(roots[i].as_str(), first.as_str()));
            } else {
                return None;
            }
        }
        i += 1;
    }
    None
}

// ---------------------------------------------------------------------
// Which directories are watched
// ---------------------------------------------------------------------

/// What happens with a subdirectory met while adding watches.
#[derive(Clone, Copy, PartialEq, Eq, Structural, Debug)]
pub enum WatchChoice {
    /// `.git`: the directory itself and its `refs/` (recursively), so
    /// commits, staging and branch switches register.
    GitDir,
    /// Hidden or build output: never watched.
    Skip,
    /// An ordinary directory: watched, and its children considered in turn.
    Descend,
}

pub open spec fn watch_choice_spec(name: Seq<char>) -> WatchChoice {
    if name == ".git"@ {
        WatchChoice::GitDir
    } else if (name.len() > 0 && name[0] == '.') || is_skip_dir(name) {
        WatchChoice::Skip
    } else {
        WatchChoice::Descend
    }
}

pub fn watch_choice(name: &str) -> (r: WatchChoice)
    ensures
        r == watch_choice_spec(name@),
{
    let c = chars_of(name);
    let git = chars_of(".git");
    if chars_eq(&c, &git) {
        WatchChoice::GitDir
    } else if (c.len() > 0 && c[0] == '.') || skip_dir(name) {
        WatchChoice::Skip
    } else {
        WatchChoice::Descend
    }
}

/// Watches are added down to `MAX_WATCH_DEPTH` levels.
pub fn within_watch_depth(depth: u32) -> (r: bool)
    ensures
        r == (depth <= MAX_WATCH_DEPTH),
{
    depth <= MAX_WATCH_DEPTH
}

/// A directory that appears while running gets watches unless it is hidden
/// or build output (its name, empty when the path has none).
pub open spec fn watch_new_dir_spec(path: Seq<char>) -> bool {
    let name = name_or_empty(path);
    !(name.len() > 0 && name[0] == '.') && !is_skip_dir(name)
}

pub fn watch_new_dir(path: &str) -> (r: bool)
    ensures
        r == watch_new_dir_spec(path@),
{
    let name = match file_name(path) {
        Some(n) => n,
        None => Vec::new(),
    };
    let s = string_of(&name);
    !(name.len() > 0 && name[0] == '.') && !skip_dir(s.as_str())
}

// ---------------------------------------------------------------------
// The quiet period
// ---------------------------------------------------------------------

/// No project waits twice.
pub open spec fn unique_keys(s: Seq<(Seq<char>, u64)>) -> bool {
    forall|i: int, j: int| 0 <= i < j < s.len() ==> #[trigger] s[i].0 != #[trigger] s[j].0
}

pub open spec fn has_key(s: Seq<(Seq<char>, u64)>, k: Seq<char>) -> bool {
    exists|i: int| 0 <= i < s.len() && #[trigger] s[i].0 == k
}

/// Recording an event: a waiting project restarts its quiet period, a new
/// one starts waiting.
pub open spec fn record_spec(s: Seq<(Seq<char>, u64)>, k: Seq<char>, t: u64) -> Seq<(Seq<char>, u64)> {
    if has_key(s, k) {
        s.update(choose|i: int| 0 <= i < s.len() && #[trigger] s[i].0 == k, (k, t))
    } else {
        s.push((k, t))
    }
}

/// Quiet for long enough: `QUIET_MS` since the last event (a clock that
/// reads earlier than the event counts as no time passed).
pub open spec fn is_due(t: u64, now: u64) -> bool {
    now as int - t as int >= QUIET_MS as int
}

/// The projects handed out for rescanning, in waiting order.
pub open spec fn due_keys(s: Seq<(Seq<char>, u64)>, now: u64) -> Seq<Seq<char>>
    decreases s.len(),
{
    if s.len() == 0 {
        Seq::empty()
    } else {
        let r = due_keys(s.drop_last(), now);
        if is_due(s.last().1, now) {
            r.push(s.last().0)
        } else {
            r
        }
    }
}

/// The projects that go on waiting.
pub open spec fn still_waiting(s: Seq<(Seq<char>, u64)>, now: u64) -> Seq<(Seq<char>, u64)>
    decreases s.len(),
{
    if s.len() == 0 {
        Seq::empty()
    } else {
        let r = still_waiting(s.drop_last(), now);
        if is_due(s.last().1, now) {
            r
        } else {
            r.push(s.last())
        }
    }
}

/// `file_name()` as text, empty when the path has none.
pub open spec fn name_or_empty(path: Seq<char>) -> Seq<char> {
    match last_name(segments(path)) {
        Some(n) => n,
        None => Seq::empty(),
    }
}

pub open spec fn pending_view(v: Seq<(String, u64)>) -> Seq<(Seq<char>, u64)> {
    v.map_values(|e: (String, u64)| (e.0@, e.1))
}

/// Projects waiting for their quiet period, each with the time (ms) of its
/// last event.
pub struct Debouncer {
    pending: Vec<(String, u64)>,
}

impl View for Debouncer {
    type V = Seq<(Seq<char>, u64)>;

    closed spec fn view(&self) -> Seq<(Seq<char>, u64)> {
        pending_view(self.pending@)
    }
}

fn find_pending(v: &Vec<(String, u64)>, k: &String) -> (r: Option<usize>)
    ensures
        match r {
            Some(i) => i < v@.len() && pending_view(v@)[i as int].0 == k@,
            None => !has_key(pending_view(v@), k@),
        },
{
    let mut i: usize = 0;
    while i < v.len()
        invariant
            i <= v@.len(),
            forall|q: int| 0 <= q < i ==> pending_view(v@)[q].0 != k@,
        decreases v.len() - i,
    {
        if string_eq(&v[i].0, k) {
            return Some(i);
        }
        i += 1;
    }
    None
}

impl Debouncer {
    pub fn new() -> (r: Debouncer)
        ensures
            r@ == Seq::<(Seq<char>, u64)>::empty(),
    {
        let r = Debouncer { pending: Vec::new() };
        assert(r@ =~= Seq::<(Seq<char>, u64)>::empty());
        r
    }

    /// An event for `project` at `now_ms`.
    pub fn record(&mut self, project: String, now_ms: u64)
        requires
            unique_keys(old(self)@),
        ensures
            unique_keys(final(self)@),
            final(self)@ == record_spec(old(self)@, project@, now_ms),
    {
        let ghost s = self@;
        match find_pending(&self.pending, &project) {
            Some(i) => {
                proof {
                    let c = choose|j: int| 0 <= j < s.len() && #[trigger] s[j].0 == project@;
                    assert(s[i as int].0 == project@);
                    if c != i {
                        if c < i {
                            assert(s[c].0 != s[i as int].0);
                        } else {
                            assert(s[i as int].0 != s[c].0);
                        }
                    }
                }
                self.pending.set(i, (project, now_ms));
                assert(self@ =~= s.update(i as int, (project@, now_ms)));
            },
            None => {
                self.pending.push((project, now_ms));
                assert(self@ =~= s.push((project@, now_ms)));
            },
        }
    }

    /// Hands out every project whose quiet period is over and forgets it.
    pub fn take_due(&mut self, now_ms: u64) -> (r: Vec<String>)
        requires
            unique_keys(old(self)@),
        ensures
            unique_keys(final(self)@),
            final(self)@ == still_waiting(old(self)@, now_ms),
            strings_view(r@) == due_keys(old(self)@, now_ms),
    {
        let ghost s = self@;
        let mut due: Vec<String> = Vec::new();
        let mut keep: Vec<(String, u64)> = Vec::new();
        let mut i: usize = 0;
        while i < self.pending.len()
            invariant
                i <= self.pending@.len(),
                s == self@,
                s.len() == self.pending@.len(),
                strings_view(due@) == due_keys(s.subrange(0, i as int), now_ms),
                pending_view(keep@) == still_waiting(s.subrange(0, i as int), now_ms),
            decreases self.pending.len() - i,
        {
            let ghost pre = s.subrange(0, i as int);
            assert(s.subrange(0, i + 1).drop_last() =~= pre);
            assert(s.subrange(0, i + 1).last() == s[i as int]);
            let t = self.pending[i].1;
            if now_ms >= t && now_ms - t >= QUIET_MS {
                let ghost before = strings_view(due@);
                due.push(copy_string(&self.pending[i].0));
                assert(strings_view(due@) =~= before.push(s[i as int].0));
            } else {
                let ghost before = pending_view(keep@);
                keep.push((copy_string(&self.pending[i].0), t));
                assert(pending_view(keep@) =~= before.push(s[i as int]));
            }
            i += 1;
        }
        assert(s.subrange(0, s.len() as int) =~= s);
        proof {
            lemma_still_waiting_unique(s, now_ms);
        }
        self.pending = keep;
        due
    }

    /// A raw file-system event at `path`: the project it lives in starts
    /// (or restarts) its quiet period, unless that project is ignored.
    pub fn note_event(&mut self, path: &str, roots: &Vec<String>, cfg: &Config, now_ms: u64)
        requires
            unique_keys(old(self)@),
        ensures
            unique_keys(final(self)@),
            final(self)@ == match project_of_spec(path@, strings_view(roots@)) {
                Some(dir) => if ignored(name_or_empty(dir), *cfg) {
                    old(self)@
                } else {
                    record_spec(old(self)@, dir, now_ms)
                },
                None => old(self)@,
            },
    {
        match project_of(path, roots) {
            Some(dir) => {
                let name = match file_name(dir.as_str()) {
                    Some(n) => n,
                    None => Vec::new(),
                };
                let name_s = string_of(&name);
                if !is_ignored(name_s.as_str(), cfg) {
                    self.record(dir, now_ms);
                }
            },
            None => {},
        }
    }
}

proof fn lemma_still_waiting_from(s: Seq<(Seq<char>, u64)>, now: u64)
    ensures
        forall|i: int|
            0 <= i < still_waiting(s, now).len() ==> exists|j: int|
                0 <= j < s.len() && #[trigger] s[j] == #[trigger] still_waiting(s, now)[i] && !is_due(
                    s[j].1,
                    now,
                ),
    decreases s.len(),
{
    if s.len() > 0 {
        let d = s.drop_last();
        lemma_still_waiting_from(d, now);
        let w = still_waiting(s, now);
        assert forall|i: int| 0 <= i < w.len() implies exists|j: int|
            0 <= j < s.len() && #[trigger] s[j] == #[trigger] w[i] && !is_due(s[j].1, now) by {
            if i < still_waiting(d, now).len() {
                let j = choose|j: int| 0 <= j < d.len() && #[trigger] d[j] == still_waiting(d, now)[i] && !is_due(d[j].1, now);
                assert(s[j] == d[j]);
            } else {
                assert(w[i] == s[s.len() - 1]);
            }
        }
    }
}

proof fn lemma_still_waiting_unique(s: Seq<(Seq<char>, u64)>, now: u64)
    requires
        unique_keys(s),
    ensures
        unique_keys(still_waiting(s, now)),
    decreases s.len(),
{
    if s.len() > 0 {
        let d = s.drop_last();
        assert(unique_keys(d)) by {
            assert forall|i: int, j: int| 0 <= i < j < d.len() implies #[trigger] d[i].0 != #[trigger] d[j].0 by {
                assert(d[i] == s[i] && d[j] == s[j]);
            }
        }
        lemma_still_waiting_unique(d, now);
        lemma_still_waiting_from(d, now);
        let wd = still_waiting(d, now);
        if !is_due(s.last().1, now) {
            let w = wd.push(s.last());
            assert forall|i: int, j: int| 0 <= i < j < w.len() implies #[trigger] w[i].0 != #[trigger] w[j].0 by {
                if j == w.len() - 1 {
                    let k = choose|k: int| 0 <= k < d.len() && #[trigger] d[k] == #[trigger] wd[i] && !is_due(d[k].1, now);
                    assert(s[k] == d[k]);
                    assert(s[k].0 != s[s.len() - 1].0);
                } else {
                    assert(w[i] == wd[i] && w[j] == wd[j]);
                }
            }
        }
    }
}


// ---------------------------------------------------------------------
// Laws of the quiet period
// ---------------------------------------------------------------------

proof fn lemma_due_keys_has(s: Seq<(Seq<char>, u64)>, now: u64, k: Seq<char>)
    ensures
        due_keys(s, now).contains(k) <==> exists|i: int|
            0 <= i < s.len() && #[trigger] s[i].0 == k && is_due(s[i].1, now),
    decreases s.len(),
{
    if s.len() > 0 {
        let d = s.drop_last();
        lemma_due_keys_has(d, now, k);
        let r = due_keys(d, now);
        if due_keys(s, now).contains(k) {
            if is_due(s.last().1, now) && !r.contains(k) {
                let j = choose|j: int| 0 <= j < r.push(s.last().0).len() && r.push(s.last().0)[j] == k;
                assert(j == r.len());
                assert(s[s.len() - 1].0 == k);
            } else {
                if is_due(s.last().1, now) {
                    assert(r.contains(k));
                }
                let i = choose|i: int| 0 <= i < d.len() && #[trigger] d[i].0 == k && is_due(d[i].1, now);
                assert(s[i] == d[i]);
            }
        }
        if exists|i: int| 0 <= i < s.len() && #[trigger] s[i].0 == k && is_due(s[i].1, now) {
            let i = choose|i: int| 0 <= i < s.len() && #[trigger] s[i].0 == k && is_due(s[i].1, now);
            if i < s.len() - 1 {
                assert(d[i] == s[i]);
                assert(r.contains(k));
                if is_due(s.last().1, now) {
                    let j = choose|j: int| 0 <= j < r.len() && r[j] == k;
                    assert(r.push(s.last().0)[j] == k);
                }
            } else {
                assert(r.push(s.last().0)[r.len() as int] == k);
            }
        }
    }
}

proof fn lemma_still_waiting_has(s: Seq<(Seq<char>, u64)>, now: u64, k: Seq<char>)
    ensures
        has_key(still_waiting(s, now), k) <==> exists|i: int|
            0 <= i < s.len() && #[trigger] s[i].0 == k && !is_due(s[i].1, now),
    decreases s.len(),
{
    if s.len() > 0 {
        let d = s.drop_last();
        lemma_still_waiting_has(d, now, k);
        let w = still_waiting(d, now);
        if has_key(still_waiting(s, now), k) {
            let j = choose|j: int| 0 <= j < still_waiting(s, now).len() && #[trigger] still_waiting(s, now)[j].0 == k;
            if !is_due(s.last().1, now) && j == w.len() {
                assert(s[s.len() - 1].0 == k);
            } else {
                assert(w[j].0 == k);
                let i = choose|i: int| 0 <= i < d.len() && #[trigger] d[i].0 == k && !is_due(d[i].1, now);
                assert(s[i] == d[i]);
            }
        }
        if exists|i: int| 0 <= i < s.len() && #[trigger] s[i].0 == k && !is_due(s[i].1, now) {
            let i = choose|i: int| 0 <= i < s.len() && #[trigger] s[i].0 == k && !is_due(s[i].1, now);
            if i < s.len() - 1 {
                assert(d[i] == s[i]);
                let j = choose|j: int| 0 <= j < w.len() && #[trigger] w[j].0 == k;
                if !is_due(s.last().1, now) {
                    assert(w.push(s.last())[j].0 == k);
                }
            } else {
                assert(w.push(s.last())[w.len() as int].0 == k);
            }
        }
    }
}

/// A project is handed out for its rescan exactly when `QUIET_MS` have
/// passed since its *last* recorded event: earlier events of a burst do not
/// count, so a save-storm collapses into one rescan.
pub proof fn law_quiet_period(s: Seq<(Seq<char>, u64)>, k: Seq<char>, t: u64, now: u64)
    requires
        unique_keys(s),
    ensures
        due_keys(record_spec(s, k, t), now).contains(k) <==> is_due(t, now),
{
    let s2 = record_spec(s, k, t);
    lemma_due_keys_has(s2, now, k);
    if has_key(s, k) {
        let c = choose|i: int| 0 <= i < s.len() && #[trigger] s[i].0 == k;
        assert(s2[c] == (k, t));
        assert(s2[c].0 == k && s2[c].1 == t);
        if exists|i: int| 0 <= i < s2.len() && #[trigger] s2[i].0 == k && is_due(s2[i].1, now) {
            let i = choose|i: int| 0 <= i < s2.len() && #[trigger] s2[i].0 == k && is_due(s2[i].1, now);
            if i != c {
                assert(s2[i] == s[i]);
                if i < c {
                    assert(s[i].0 != s[c].0);
                } else {
                    assert(s[c].0 != s[i].0);
                }
            }
        }
    } else {
        assert(s2[s.len() as int] == (k, t));
        assert(s2[s.len() as int].0 == k && s2[s.len() as int].1 == t);
        if exists|i: int| 0 <= i < s2.len() && #[trigger] s2[i].0 == k && is_due(s2[i].1, now) {
            let i = choose|i: int| 0 <= i < s2.len() && #[trigger] s2[i].0 == k && is_due(s2[i].1, now);
            if i < s.len() {
                assert(s2[i] == s[i]);
            }
        }
    }
}

/// Taking the due projects splits the waiting ones: each is either handed
/// out or goes on waiting, never both, and nothing else appears.
pub proof fn law_take_due_partitions(s: Seq<(Seq<char>, u64)>, now: u64, k: Seq<char>)
    requires
        unique_keys(s),
    ensures
        has_key(s, k) <==> (due_keys(s, now).contains(k) || has_key(still_waiting(s, now), k)),
        !(due_keys(s, now).contains(k) && has_key(still_waiting(s, now), k)),
{
    lemma_due_keys_has(s, now, k);
    lemma_still_waiting_has(s, now, k);
    if due_keys(s, now).contains(k) && has_key(still_waiting(s, now), k) {
        let i = choose|i: int| 0 <= i < s.len() && #[trigger] s[i].0 == k && is_due(s[i].1, now);
        let j = choose|j: int| 0 <= j < s.len() && #[trigger] s[j].0 == k && !is_due(s[j].1, now);
        if i < j {
            assert(s[i].0 != s[j].0);
        } else if j < i {
            assert(s[j].0 != s[i].0);
        }
    }
    if has_key(s, k) {
        let i = choose|i: int| 0 <= i < s.len() && #[trigger] s[i].0 == k;
        if is_due(s[i].1, now) {
            assert(exists|i: int| 0 <= i < s.len() && #[trigger] s[i].0 == k && is_due(s[i].1, now));
        } else {
            assert(exists|i: int| 0 <= i < s.len() && #[trigger] s[i].0 == k && !is_due(s[i].1, now));
        }
    }
}

// ---------------------------------------------------------------------
// Applying a rescan
// ---------------------------------------------------------------------

/// Index of the first project listed at `path`, or -1.
pub open spec fn first_with_path(ps: Seq<ProjectView>, path: Seq<char>) -> int
    decreases ps.len(),
{
    if ps.len() == 0 {
        -1
    } else if ps[0].path == path {
        0
    } else {
        let r = first_with_path(ps.drop_first(), path);
        if r < 0 {
            -1
        } else {
            r + 1
        }
    }
}

pub proof fn lemma_first_with_path(ps: Seq<ProjectView>, path: Seq<char>, i: int)
    requires
        0 <= i <= ps.len(),
        forall|q: int| 0 <= q < i ==> #[trigger] ps[q].path != path,
        i == ps.len() || ps[i].path == path,
    ensures
        first_with_path(ps, path) == if i == ps.len() {
            -1
        } else {
            i
        },
    decreases i,
{
    if ps.len() > 0 && i > 0 {
        let d = ps.drop_first();
        assert(ps[0].path != path);
        assert forall|q: int| 0 <= q < i - 1 implies #[trigger] d[q].path != path by {
            assert(d[q] == ps[q + 1]);
        }
        if i < ps.len() {
            assert(d[i - 1] == ps[i]);
        }
        lemma_first_with_path(d, path, i - 1);
    }
}

proof fn lemma_first_with_path_props(ps: Seq<ProjectView>, path: Seq<char>)
    ensures
        -1 <= first_with_path(ps, path) < ps.len(),
        first_with_path(ps, path) >= 0 ==> ps[first_with_path(ps, path)].path == path,
        first_with_path(ps, path) < 0 ==> forall|q: int| 0 <= q < ps.len() ==> #[trigger] ps[q].path != path,
    decreases ps.len(),
{
    if ps.len() > 0 && ps[0].path != path {
        let d = ps.drop_first();
        lemma_first_with_path_props(d, path);
        assert forall|q: int| 0 <= q < ps.len() && first_with_path(ps, path) < 0 implies #[trigger] ps[q].path != path by {
            if q > 0 {
                assert(ps[q] == d[q - 1]);
            }
        }
        if first_with_path(ps, path) >= 0 {
            assert(ps[first_with_path(ps, path)] == d[first_with_path(d, path)]);
        }
    }
}

/// Nothing the dashboard shows changed: the project is listed, first at
/// its path, exactly as scanned.
pub open spec fn shows_same(ps: Seq<ProjectView>, p: ProjectView) -> bool {
    let i = first_with_path(ps, p.path);
    i >= 0 && ps[i] == p
}

/// The list without the projects at `path`, in order.
pub open spec fn without_path(ps: Seq<ProjectView>, path: Seq<char>) -> Seq<ProjectView>
    decreases ps.len(),
{
    if ps.len() == 0 {
        Seq::empty()
    } else {
        let r = without_path(ps.drop_last(), path);
        if ps.last().path == path {
            r
        } else {
            r.push(ps.last())
        }
    }
}

pub open spec fn opt_project_view(p: Option<Project>) -> Option<ProjectView> {
    match p {
        Some(p) => Some(p@),
        None => None,
    }
}

/// The list after a rescan of `dir` found `scanned` (`None`: the directory
/// is gone): a changed project replaces the first one at its path (or joins
/// the list) and the list is sorted newest first again; a vanished one is
/// dropped.
pub open spec fn rescan_list(ps: Seq<ProjectView>, dir: Seq<char>, scanned: Option<ProjectView>) -> Seq<ProjectView> {
    match scanned {
        Some(p) => if shows_same(ps, p) {
            ps
        } else {
            let i = first_with_path(ps, p.path);
            sort_desc(
                if i >= 0 {
                    ps.update(i, p)
                } else {
                    ps.push(p)
                },
                by_touched(),
            )
        },
        None => without_path(ps, dir),
    }
}

/// Applies a rescan of the directory `dir` to the project list and says
/// what the clients are told: the changed project, the removed path, or
/// nothing when nothing they show changed.
pub fn apply_rescan(projects: &mut Vec<Project>, dir: &str, scanned: Option<Project>) -> (r: Option<Event>)
    ensures
        projects_view(final(projects)@) == rescan_list(projects_view(old(projects)@), dir@, opt_project_view(scanned)),
        match scanned {
            Some(p) => if shows_same(projects_view(old(projects)@), p@) {
                r is None
            } else {
                match r {
                    Some(Event::ProjectChanged { project }) => project@ == p@,
                    _ => false,
                }
            },
            None => if without_path(projects_view(old(projects)@), dir@).len() == old(projects)@.len() {
                r is None
            } else {
                match r {
                    Some(Event::ProjectRemoved { path }) => path@ == dir@,
                    _ => false,
                }
            },
        },
{
    let ghost ps = projects_view(projects@);
    match scanned {
        Some(p) => {
            let mut i: usize = 0;
            while i < projects.len() && !string_eq(&projects[i].path, &p.path)
                invariant
                    i <= projects@.len(),
                    ps == projects_view(projects@),
                    forall|q: int| 0 <= q < i ==> #[trigger] ps[q].path != p@.path,
                decreases projects.len() - i,
            {
                i += 1;
            }
            proof {
                if i < projects@.len() {
                    assert(ps[i as int] == projects@[i as int]@);
                }
                lemma_first_with_path(ps, p@.path, i as int);
            }
            if i < projects.len() {
                if project_eq(&projects[i], &p) {
                    return None;
                }
                projects.set(i, copy_project(&p));
                assert(projects_view(projects@) =~= ps.update(i as int, p@));
            } else {
                projects.push(copy_project(&p));
                assert(projects_view(projects@) =~= ps.push(p@));
            }
            let mut tmp: Vec<Project> = Vec::new();
            std::mem::swap(&mut tmp, projects);
            *projects = sort_projects_desc(tmp);
            Some(Event::ProjectChanged { project: Box::new(p) })
        },
        None => {
            let mut kept: Vec<Project> = Vec::new();
            let mut i: usize = 0;
            let dir_s = String::from_str(dir);
            while i < projects.len()
                invariant
                    i <= projects@.len(),
                    ps == projects_view(projects@),
                    dir_s@ == dir@,
                    projects_view(kept@) == without_path(ps.subrange(0, i as int), dir@),
                    kept@.len() <= i,
                decreases projects.len() - i,
            {
                assert(ps.subrange(0, i + 1).drop_last() =~= ps.subrange(0, i as int));
                assert(ps.subrange(0, i + 1).last() == projects@[i as int]@);
                if !string_eq(&projects[i].path, &dir_s) {
                    let ghost before = projects_view(kept@);
                    kept.push(copy_project(&projects[i]));
                    assert(projects_view(kept@) =~= before.push(projects@[i as int]@));
                }
                i += 1;
            }
            assert(ps.subrange(0, ps.len() as int) =~= ps);
            let removed = kept.len() != projects.len();
            *projects = kept;
            if removed {
                Some(Event::ProjectRemoved { path: dir_s })
            } else {
                None
            }
        },
    }
}

// ---------------------------------------------------------------------
// Laws of rescans
// ---------------------------------------------------------------------

/// No two projects share a path.
pub open spec fn unique_paths(ps: Seq<ProjectView>) -> bool {
    forall|i: int, j: int| 0 <= i < j < ps.len() ==> #[trigger] ps[i].path != #[trigger] ps[j].path
}

proof fn lemma_without_path_from(ps: Seq<ProjectView>, path: Seq<char>)
    ensures
        without_path(ps, path).len() <= ps.len(),
        forall|i: int|
            #![trigger without_path(ps, path)[i]]
            0 <= i < without_path(ps, path).len() ==> without_path(ps, path)[i].path != path
                && ps.contains(without_path(ps, path)[i]),
    decreases ps.len(),
{
    if ps.len() > 0 {
        let d = ps.drop_last();
        lemma_without_path_from(d, path);
        let w = without_path(ps, path);
        assert forall|i: int| #![trigger w[i]] 0 <= i < w.len() implies w[i].path != path && ps.contains(w[i]) by {
            if i < without_path(d, path).len() {
                let x = without_path(d, path)[i];
                assert(w[i] == x);
                let j = choose|j: int| 0 <= j < d.len() && d[j] == x;
                assert(ps[j] == x);
            } else {
                assert(w[i] == ps[ps.len() - 1]);
            }
        }
    }
}

proof fn lemma_without_path_desc(ps: Seq<ProjectView>, path: Seq<char>)
    requires
        is_desc(ps, by_touched()),
    ensures
        is_desc(without_path(ps, path), by_touched()),
    decreases ps.len(),
{
    if ps.len() > 0 {
        let d = ps.drop_last();
        assert(is_desc(d, by_touched())) by {
            assert forall|i: int, j: int| 0 <= i <= j < d.len() implies (by_touched())(d[j]) <= (by_touched())(d[i]) by {
                assert(d[i] == ps[i] && d[j] == ps[j]);
            }
        }
        lemma_without_path_desc(d, path);
        lemma_without_path_from(d, path);
        let wd = without_path(d, path);
        if ps.last().path != path {
            let w = wd.push(ps.last());
            assert forall|i: int, j: int| 0 <= i <= j < w.len() implies (by_touched())(w[j]) <= (by_touched())(w[i]) by {
                if j == w.len() - 1 && i < j {
                    assert(wd[i].path != path && d.contains(wd[i]));
                    let k = choose|k: int| 0 <= k < d.len() && d[k] == wd[i];
                    assert(ps[k] == d[k]);
                    assert(w[i] == wd[i]);
                } else if j < w.len() - 1 {
                    assert(w[i] == wd[i] && w[j] == wd[j]);
                }
            }
        }
    }
}

/// A rescan keeps the list newest-touched first.
pub proof fn law_rescan_keeps_order(ps: Seq<ProjectView>, dir: Seq<char>, scanned: Option<ProjectView>)
    requires
        is_desc(ps, by_touched()),
    ensures
        is_desc(rescan_list(ps, dir, scanned), by_touched()),
{
    match scanned {
        Some(p) => {
            if !shows_same(ps, p) {
                let i = first_with_path(ps, p.path);
                lemma_sort_desc(
                    if i >= 0 {
                        ps.update(i, p)
                    } else {
                        ps.push(p)
                    },
                    by_touched(),
                );
            }
        },
        None => {
            lemma_without_path_desc(ps, dir);
        },
    }
}

/// The list after a changed project was applied, before sorting.
pub open spec fn placed(ps: Seq<ProjectView>, p: ProjectView) -> Seq<ProjectView> {
    let i = first_with_path(ps, p.path);
    if i >= 0 {
        ps.update(i, p)
    } else {
        ps.push(p)
    }
}

proof fn lemma_placed_unique(ps: Seq<ProjectView>, p: ProjectView)
    requires
        unique_paths(ps),
    ensures
        unique_paths(placed(ps, p)),
        placed(ps, p).contains(p),
        forall|j: int| 0 <= j < placed(ps, p).len() && #[trigger] placed(ps, p)[j].path == p.path ==> placed(ps, p)[j] == p,
{
    lemma_first_with_path_props(ps, p.path);
    let i = first_with_path(ps, p.path);
    let u = placed(ps, p);
    if i >= 0 {
        assert(u[i] == p);
        assert forall|a: int, b: int| 0 <= a < b < u.len() implies #[trigger] u[a].path != #[trigger] u[b].path by {
            if a == i {
                assert(ps[i].path != ps[b].path);
            } else if b == i {
                assert(ps[a].path != ps[i].path);
            } else {
                assert(ps[a].path != ps[b].path);
            }
        }
        assert forall|j: int| 0 <= j < u.len() && #[trigger] u[j].path == p.path implies u[j] == p by {
            if j != i {
                if j < i {
                    assert(ps[j].path != ps[i].path);
                } else {
                    assert(ps[i].path != ps[j].path);
                }
            }
        }
    } else {
        assert(u[ps.len() as int] == p);
        assert forall|a: int, b: int| 0 <= a < b < u.len() implies #[trigger] u[a].path != #[trigger] u[b].path by {
            if b == ps.len() {
                assert(ps[a].path != p.path);
            } else {
                assert(ps[a].path != ps[b].path);
            }
        }
        assert forall|j: int| 0 <= j < u.len() && #[trigger] u[j].path == p.path implies u[j] == p by {
            if j < ps.len() {
                assert(ps[j].path != p.path);
            }
        }
    }
}

proof fn lemma_sort_keeps_unique(u: Seq<ProjectView>)
    requires
        unique_paths(u),
    ensures
        unique_paths(sort_desc(u, by_touched())),
        forall|x: ProjectView| #[trigger] sort_desc(u, by_touched()).contains(x) <==> u.contains(x),
{
    broadcast use vstd::seq_lib::group_to_multiset_ensures;

    let s = sort_desc(u, by_touched());
    lemma_sort_desc(u, by_touched());
    assert(u.no_duplicates()) by {
        assert forall|i: int, j: int| 0 <= i < u.len() && 0 <= j < u.len() && i != j implies u[i] != u[j] by {
            if i < j {
                assert(u[i].path != u[j].path);
            } else {
                assert(u[j].path != u[i].path);
            }
        }
    }
    u.lemma_multiset_has_no_duplicates();
    s.lemma_multiset_has_no_duplicates_conv();
    assert forall|x: ProjectView| #[trigger] s.contains(x) <==> u.contains(x) by {
        assert(s.to_multiset().count(x) == u.to_multiset().count(x));
    }
    assert forall|i: int, j: int| 0 <= i < j < s.len() implies #[trigger] s[i].path != #[trigger] s[j].path by {
        if s[i].path == s[j].path {
            assert(s.contains(s[i]) && s.contains(s[j]));
            let a = choose|a: int| 0 <= a < u.len() && u[a] == s[i];
            let b = choose|b: int| 0 <= b < u.len() && u[b] == s[j];
            if a < b {
                assert(u[a].path != u[b].path);
            } else if b < a {
                assert(u[b].path != u[a].path);
            }
            assert(s[i] == s[j]);
        }
    }
}

/// A rescan keeps every path listed at most once.
pub proof fn law_rescan_keeps_paths_unique(ps: Seq<ProjectView>, dir: Seq<char>, scanned: Option<ProjectView>)
    requires
        unique_paths(ps),
    ensures
        unique_paths(rescan_list(ps, dir, scanned)),
{
    match scanned {
        Some(p) => {
            if !shows_same(ps, p) {
                lemma_placed_unique(ps, p);
                lemma_sort_keeps_unique(placed(ps, p));
            }
        },
        None => {
            lemma_without_path_from(ps, dir);
            let w = without_path(ps, dir);
            assert forall|i: int, j: int| 0 <= i < j < w.len() implies #[trigger] w[i].path != #[trigger] w[j].path by {
                lemma_without_path_subseq(ps, dir);
                let a = choose|a: int, b: int| 0 <= a < b < ps.len() && ps[a] == w[i] && ps[b] == w[j];
                assert(ps[a.0].path != ps[a.1].path);
            }
        },
    }
}

proof fn lemma_without_path_subseq(ps: Seq<ProjectView>, path: Seq<char>)
    ensures
        forall|i: int, j: int|
            0 <= i < j < without_path(ps, path).len() ==> exists|a: int, b: int|
                0 <= a < b < ps.len() && ps[a] == #[trigger] without_path(ps, path)[i] && ps[b]
                    == #[trigger] without_path(ps, path)[j],
    decreases ps.len(),
{
    if ps.len() > 0 {
        let d = ps.drop_last();
        lemma_without_path_subseq(d, path);
        lemma_without_path_from(d, path);
        let wd = without_path(d, path);
        let w = without_path(ps, path);
        assert forall|i: int, j: int| 0 <= i < j < w.len() implies exists|a: int, b: int|
            0 <= a < b < ps.len() && ps[a] == #[trigger] w[i] && ps[b] == #[trigger] w[j] by {
            if j < wd.len() {
                assert(w[i] == wd[i] && w[j] == wd[j]);
                let ab = choose|a: int, b: int| 0 <= a < b < d.len() && d[a] == #[trigger] wd[i] && d[b] == #[trigger] wd[j];
                assert(ps[ab.0] == d[ab.0] && ps[ab.1] == d[ab.1]);
            } else {
                assert(w[j] == ps[ps.len() - 1]);
                assert(w[i] == wd[i]);
                assert(d.contains(wd[i]));
                let a = choose|a: int| 0 <= a < d.len() && d[a] == wd[i];
                assert(ps[a] == d[a]);
                assert(ps[a] == w[i] && ps[ps.len() - 1] == w[j]);
            }
        }
    }
}

/// Rescanning an unchanged project changes nothing and tells the clients
/// nothing: after a rescan applied `p`, the same result again shows the
/// same (so it is suppressed) and leaves the list as it is.
pub proof fn law_rescan_repeat_is_silent(ps: Seq<ProjectView>, dir: Seq<char>, p: ProjectView)
    requires
        unique_paths(ps),
    ensures
        shows_same(rescan_list(ps, dir, Some(p)), p),
        rescan_list(rescan_list(ps, dir, Some(p)), dir, Some(p)) == rescan_list(ps, dir, Some(p)),
{
    if !shows_same(ps, p) {
        lemma_placed_unique(ps, p);
        let u = placed(ps, p);
        lemma_sort_keeps_unique(u);
        let s = sort_desc(u, by_touched());
        assert(s.contains(p));
        let k = choose|k: int| 0 <= k < s.len() && s[k] == p;
        assert(s[k].path == p.path);
        lemma_first_with_path_props(s, p.path);
        let f = first_with_path(s, p.path);
        assert(f >= 0) by {
            if f < 0 {
                assert(s[k].path != p.path);
            }
        }
        assert(s.contains(s[f]));
        let j = choose|j: int| 0 <= j < u.len() && u[j] == s[f];
        assert(u[j].path == p.path);
    }
}

/// After a directory vanished, no project at its path is listed and every
/// other project stays.
pub proof fn law_removed_project_gone(ps: Seq<ProjectView>, dir: Seq<char>, x: ProjectView)
    ensures
        rescan_list(ps, dir, None).contains(x) <==> (ps.contains(x) && x.path != dir),
    decreases ps.len(),
{
    if ps.len() > 0 {
        let d = ps.drop_last();
        law_removed_project_gone(d, dir, x);
        let wd = without_path(d, dir);
        let w = without_path(ps, dir);
        if ps.contains(x) && x.path != dir {
            let k = choose|k: int| 0 <= k < ps.len() && ps[k] == x;
            if k < ps.len() - 1 {
                assert(d[k] == x);
                let m = choose|m: int| 0 <= m < wd.len() && wd[m] == x;
                if ps.last().path != dir {
                    assert(w[m] == x);
                }
            } else {
                assert(w[wd.len() as int] == x);
            }
        }
        if w.contains(x) {
            let m = choose|m: int| 0 <= m < w.len() && w[m] == x;
            if m < wd.len() {
                assert(wd[m] == x);
                let k = choose|k: int| 0 <= k < d.len() && d[k] == x;
                assert(ps[k] == x);
            } else {
                assert(ps[ps.len() - 1] == x);
            }
        }
    }
}

} // verus!
