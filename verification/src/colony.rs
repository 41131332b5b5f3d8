//! The colony panel: which siblings exist on this machine, whether each is
//! live, and how to reach it. Detection is an OR of independent signals
//! (a checkout under a scan root, a binary in a known install dir, an open
//! loopback port). The roster is built in. Probes only ever touch
//! 127.0.0.1: hosts are not configurable, only ports are. The socket probes
//! and file metadata are the application's; this module decides.

use vstd::prelude::*;

use crate::config::{expand_tilde_spec, expand_tilde_with, home_dir, join_path, path_join, Config};
use crate::protocol::{opt_str_view, projects_view, strings_view, ColonyStatus, Project, ProjectView, Sibling, SiblingSurface, SiblingView};
use crate::text::{chars_eq, chars_of, dec, ends_with, ends_with_chars, extend_str, push_dec, slice_chars, string_of};
use crate::watch::{components, components_of};

verus! {

/// Where "not installed" points: `<LANDER_BASE>/<slug>/`.
pub const LANDER_BASE: &'static str = "https://apexaurum.no";

/// How many siblings the roster holds.
pub const ROSTER_LEN: usize = 13;

/// A roster entry: what is known of a sibling before looking.
#[derive(Clone, Debug)]
pub struct RosterEntry {
    /// Also the project directory name under a scan root.
    pub name: String,
    pub tagline: String,
    pub surface: SiblingSurface,
    /// Default loopback port; `None` = nothing to probe.
    pub port: Option<u16>,
    /// Binary names worth looking for, most telling first.
    pub binaries: Vec<String>,
    /// MCP server name, for siblings agents reach that way.
    pub mcp: Option<String>,
}

pub struct RosterEntryView {
    pub name: Seq<char>,
    pub tagline: Seq<char>,
    pub surface: SiblingSurface,
    pub port: Option<u16>,
    pub binaries: Seq<Seq<char>>,
    pub mcp: Option<Seq<char>>,
}

impl View for RosterEntry {
    type V = RosterEntryView;

    open spec fn view(&self) -> RosterEntryView {
        RosterEntryView {
            name: self.name@,
            tagline: self.tagline@,
            surface: self.surface,
            port: self.port,
            binaries: strings_view(self.binaries@),
            mcp: opt_str_view(self.mcp),
        }
    }
}

pub open spec fn roster_view(v: Seq<RosterEntry>) -> Seq<RosterEntryView> {
    v.map_values(|e: RosterEntry| e@)
}

pub open spec fn entry_spec(
    name: Seq<char>,
    tagline: Seq<char>,
    surface: SiblingSurface,
    port: Option<u16>,
    binaries: Seq<Seq<char>>,
    mcp: Option<Seq<char>>,
) -> RosterEntryView {
    RosterEntryView { name, tagline, surface, port, binaries, mcp }
}

/// The thirteen siblings; ports are defaults only.
pub open spec fn roster_spec() -> Seq<RosterEntryView> {
    seq![
        entry_spec("Prefrontal-RS"@, "this dashboard — projects, notes, recall"@, SiblingSurface::WebUi, Some(7320u16), seq!["prefrontald"@, "prefrontal"@], Some("prefrontal"@)),
        entry_spec("Imaginarium-RS"@, "image & video studio"@, SiblingSurface::WebUi, Some(8791u16), seq!["imaginarium"@, "imaginariumd"@], Some("imaginarium"@)),
        entry_spec("ApexOS-RS"@, "agent OS — agentd gateway"@, SiblingSurface::WebUi, Some(8787u16), seq!["agentd"@], None),
        entry_spec("ApexRouter-RS"@, "OpenAI-compatible model router"@, SiblingSurface::WebUi, Some(8888u16), seq!["apexrouter"@], None),
        entry_spec("CerebroCortex-RS"@, "agent memory graph"@, SiblingSurface::HttpApi, Some(8765u16), seq!["cerebro-mcp"@, "cerebro-api"@], Some("cerebro-cortex"@)),
        entry_spec("Callosum-RS"@, "agent mesh + shim"@, SiblingSurface::HttpApi, Some(8788u16), seq!["callosum"@, "callosumd"@], Some("callosum"@)),
        entry_spec("Occipital-RS"@, "polite web reading & extraction"@, SiblingSurface::HttpApi, None, seq!["occipital"@], None),
        entry_spec("Sonus-RS"@, "audio engine, MCP-first"@, SiblingSurface::Mcp, None, seq!["sonus"@], Some("sonus"@)),
        entry_spec("Puerperium-RS"@, "raises specialist models from memory"@, SiblingSurface::Cli, None, seq!["puerperium"@], None),
        entry_spec("Enthea-RS"@, "native wgpu experience"@, SiblingSurface::Native, None, seq!["enthea"@], None),
        entry_spec("ApexOS-RV"@, "bare-metal ApexOS (RISC-V)"@, SiblingSurface::NoRuntime, None, Seq::empty(), None),
        entry_spec("Launchpad-RS"@, "project scaffolding, no runtime"@, SiblingSurface::NoRuntime, None, seq!["launchpad"@], None),
        entry_spec("NeuralSymphony-RS"@, "the newest sibling, over HTTP"@, SiblingSurface::HttpApi, Some(7664u16), seq!["neuralsymphony"@], None),
    ]
}

fn own(s: &str) -> (r: String)
    ensures
        r@ == s@,
{
    String::from_str(s)
}

fn own_opt(s: Option<&str>) -> (r: Option<String>)
    ensures
        opt_str_view(r) == match s {
            Some(t) => Some(t@),
            None => None::<Seq<char>>,
        },
{
    match s {
        Some(t) => Some(String::from_str(t)),
        None => None,
    }
}

fn names1(a: &str) -> (r: Vec<String>)
    ensures
        strings_view(r@) == seq![a@],
{
    let mut r: Vec<String> = Vec::new();
    r.push(String::from_str(a));
    assert(strings_view(r@) =~= seq![a@]);
    r
}

fn names2(a: &str, b: &str) -> (r: Vec<String>)
    ensures
        strings_view(r@) == seq![a@, b@],
{
    let mut r: Vec<String> = Vec::new();
    r.push(String::from_str(a));
    r.push(String::from_str(b));
    assert(strings_view(r@) =~= seq![a@, b@]);
    r
}

fn entry(
    name: &str,
    tagline: &str,
    surface: SiblingSurface,
    port: Option<u16>,
    binaries: Vec<String>,
    mcp: Option<&str>,
) -> (r: RosterEntry)
    ensures
        r@ == entry_spec(
            name@,
            tagline@,
            surface,
            port,
            strings_view(binaries@),
            match mcp {
                Some(t) => Some(t@),
                None => None::<Seq<char>>,
            },
        ),
{
    RosterEntry { name: own(name), tagline: own(tagline), surface, port, binaries, mcp: own_opt(mcp) }
}

/// The built-in roster, in display order.
pub fn roster() -> (r: Vec<RosterEntry>)
    ensures
        roster_view(r@) == roster_spec(),
{
    let mut r: Vec<RosterEntry> = Vec::new();
    r.push(entry("Prefrontal-RS", "this dashboard — projects, notes, recall", SiblingSurface::WebUi, Some(7320), names2("prefrontald", "prefrontal"), Some("prefrontal")));
    r.push(entry("Imaginarium-RS", "image & video studio", SiblingSurface::WebUi, Some(8791), names2("imaginarium", "imaginariumd"), Some("imaginarium")));
    r.push(entry("ApexOS-RS", "agent OS — agentd gateway", SiblingSurface::WebUi, Some(8787), names1("agentd"), None));
    r.push(entry("ApexRouter-RS", "OpenAI-compatible model router", SiblingSurface::WebUi, Some(8888), names1("apexrouter"), None));
    r.push(entry("CerebroCortex-RS", "agent memory graph", SiblingSurface::HttpApi, Some(8765), names2("cerebro-mcp", "cerebro-api"), Some("cerebro-cortex")));
    r.push(entry("Callosum-RS", "agent mesh + shim", SiblingSurface::HttpApi, Some(8788), names2("callosum", "callosumd"), Some("callosum")));
    r.push(entry("Occipital-RS", "polite web reading & extraction", SiblingSurface::HttpApi, None, names1("occipital"), None));
    r.push(entry("Sonus-RS", "audio engine, MCP-first", SiblingSurface::Mcp, None, names1("sonus"), Some("sonus")));
    r.push(entry("Puerperium-RS", "raises specialist models from memory", SiblingSurface::Cli, None, names1("puerperium"), None));
    r.push(entry("Enthea-RS", "native wgpu experience", SiblingSurface::Native, None, names1("enthea"), None));
    let none: Vec<String> = Vec::new();
    assert(strings_view(none@) =~= Seq::<Seq<char>>::empty());
    r.push(entry("ApexOS-RV", "bare-metal ApexOS (RISC-V)", SiblingSurface::NoRuntime, None, none, None));
    r.push(entry("Launchpad-RS", "project scaffolding, no runtime", SiblingSurface::NoRuntime, None, names1("launchpad"), None));
    r.push(entry("NeuralSymphony-RS", "the newest sibling, over HTTP", SiblingSurface::HttpApi, Some(7664), names1("neuralsymphony"), None));
    assert(roster_view(r@) =~= roster_spec());
    r
}

// ---------------------------------------------------------------------
// One sibling
// ---------------------------------------------------------------------

/// The configured port for a sibling: the first override by that name.
pub open spec fn port_override(ports: Seq<(String, u16)>, name: Seq<char>) -> Option<u16>
    decreases ports.len(),
{
    if ports.len() == 0 {
        None
    } else if ports[0].0@ == name {
        Some(ports[0].1)
    } else {
        port_override(ports.drop_first(), name)
    }
}

/// In a keyed table of port overrides, the lookup by a sibling's name gives
/// the one port stored under that name, wherever it stands.
pub proof fn law_keyed_ports(ports: Seq<(String, u16)>, name: Seq<char>, i: int)
    requires
        crate::config::keys_unique(ports),
        0 <= i < ports.len(),
        ports[i].0@ == name,
    ensures
        port_override(ports, name) == Some(ports[i].1),
    decreases i,
{
    if i > 0 {
        let d = ports.drop_first();
        assert(ports[0].0@ != name);
        assert(d[i - 1] == ports[i]);
        assert forall|a: int, b: int| 0 <= a < b < d.len() implies d[a].0@ != d[b].0@ by {
            assert(d[a] == ports[a + 1]);
            assert(d[b] == ports[b + 1]);
        }
        law_keyed_ports(d, name, i - 1);
    }
}

/// Effective loopback port: the config override, else the roster default.
pub open spec fn effective_port_spec(cfg: Config, e: RosterEntryView) -> Option<u16> {
    match port_override(cfg.colony.ports@, e.name) {
        Some(p) => Some(p),
        None => e.port,
    }
}

pub fn effective_port(cfg: &Config, e: &RosterEntry) -> (r: Option<u16>)
    ensures
        r == effective_port_spec(*cfg, e@),
{
    let ports = &cfg.colony.ports;
    let ghost pv = ports@;
    let mut i: usize = 0;
    assert(pv.subrange(0, pv.len() as int) =~= pv);
    while i < ports.len()
        invariant
            i <= pv.len(),
            pv == ports@,
            pv == cfg.colony.ports@,
            port_override(pv, e@.name) == port_override(pv.subrange(i as int, pv.len() as int), e@.name),
        decreases ports.len() - i,
    {
        let ghost rest = pv.subrange(i as int, pv.len() as int);
        assert(rest[0] == pv[i as int]);
        assert(rest.drop_first() =~= pv.subrange(i + 1, pv.len() as int));
        if crate::protocol::string_eq(&ports[i].0, &e.name) {
            return Some(ports[i].1);
        }
        i += 1;
    }
    e.port
}

/// The path of the first scanned project with this name.
pub open spec fn named_path(ps: Seq<ProjectView>, name: Seq<char>) -> Option<Seq<char>>
    decreases ps.len(),
{
    if ps.len() == 0 {
        None
    } else if ps[0].name == name {
        Some(ps[0].path)
    } else {
        named_path(ps.drop_first(), name)
    }
}

pub fn project_path(projects: &Vec<Project>, name: &str) -> (r: Option<String>)
    ensures
        opt_str_view(r) == named_path(projects_view(projects@), name@),
{
    let ghost pv = projects_view(projects@);
    let mut i: usize = 0;
    assert(pv.subrange(0, pv.len() as int) =~= pv);
    while i < projects.len()
        invariant
            i <= pv.len(),
            pv == projects_view(projects@),
            named_path(pv, name@) == named_path(pv.subrange(i as int, pv.len() as int), name@),
        decreases projects.len() - i,
    {
        let ghost rest = pv.subrange(i as int, pv.len() as int);
        assert(rest[0] == projects@[i as int]@);
        assert(rest.drop_first() =~= pv.subrange(i + 1, pv.len() as int));
        if crate::text::str_eq(projects[i].name.as_str(), name) {
            return Some(crate::protocol::copy_string(&projects[i].path));
        }
        i += 1;
    }
    None
}

/// `http://127.0.0.1:<port>/`: the only host a sibling is ever reached on.
pub open spec fn loopback_url(port: u16) -> Seq<char> {
    "http://127.0.0.1:"@ + dec(port as nat) + "/"@
}

/// The lander slug: `-RS` siblings drop the suffix, others keep their name.
pub open spec fn slug(name: Seq<char>) -> Seq<char> {
    if ends_with(name, "-RS"@) {
        name.subrange(0, name.len() - 3)
    } else {
        name
    }
}

pub open spec fn lander_spec(name: Seq<char>) -> Seq<char> {
    LANDER_BASE@ + "/"@ + slug(name) + "/"@
}

/// A sibling as seen from here: the roster entry, the effective port, the
/// checkout among the scanned projects, the binary found, and the probe
/// answer (`live` only where there is a port).
pub open spec fn sibling_spec(
    e: RosterEntryView,
    cfg: Config,
    ps: Seq<ProjectView>,
    binary: Option<Seq<char>>,
    answered: bool,
) -> SiblingView {
    let port = effective_port_spec(cfg, e);
    SiblingView {
        name: e.name,
        tagline: e.tagline,
        surface: e.surface,
        port,
        url: match port {
            Some(p) => if e.surface == SiblingSurface::WebUi {
                Some(loopback_url(p))
            } else {
                None
            },
            None => None,
        },
        mcp: e.mcp,
        checkout: named_path(ps, e.name),
        binary,
        live: match port {
            Some(_) => Some(answered),
            None => None,
        },
        lander: lander_spec(e.name),
    }
}

pub fn loopback(port: u16) -> (r: String)
    ensures
        r@ == loopback_url(port),
{
    let mut v: Vec<char> = Vec::new();
    extend_str(&mut v, "http://127.0.0.1:");
    push_dec(&mut v, port as u64);
    extend_str(&mut v, "/");
    string_of(&v)
}

pub fn lander(name: &str) -> (r: String)
    ensures
        r@ == lander_spec(name@),
{
    proof {
        reveal_strlit("-RS");
    }
    let c = chars_of(name);
    let suffix = chars_of("-RS");
    let s = if ends_with_chars(&c, &suffix) {
        slice_chars(&c, 0, c.len() - 3)
    } else {
        slice_chars(&c, 0, c.len())
    };
    assert(s@ =~= slug(name@));
    let mut v: Vec<char> = Vec::new();
    extend_str(&mut v, LANDER_BASE);
    extend_str(&mut v, "/");
    extend_chars_ref(&mut v, &s);
    extend_str(&mut v, "/");
    string_of(&v)
}

fn extend_chars_ref(out: &mut Vec<char>, s: &Vec<char>)
    ensures
        final(out)@ == old(out)@ + s@,
{
    crate::text::extend_chars(out, s.as_slice());
}

pub fn sibling(e: &RosterEntry, cfg: &Config, projects: &Vec<Project>, binary: Option<String>, answered: bool) -> (r: Sibling)
    ensures
        r@ == sibling_spec(e@, *cfg, projects_view(projects@), opt_str_view(binary), answered),
{
    let port = effective_port(cfg, e);
    let url = match port {
        Some(p) => if e.surface == SiblingSurface::WebUi {
            Some(loopback(p))
        } else {
            None
        },
        None => None,
    };
    let live = match port {
        Some(_) => Some(answered),
        None => None,
    };
    Sibling {
        name: crate::protocol::copy_string(&e.name),
        tagline: crate::protocol::copy_string(&e.tagline),
        surface: e.surface,
        port,
        url,
        mcp: crate::protocol::copy_opt_string(&e.mcp),
        checkout: project_path(projects, e.name.as_str()),
        binary,
        live,
        lander: lander(e.name.as_str()),
    }
}

pub open spec fn siblings_view(v: Seq<Sibling>) -> Seq<SiblingView> {
    v.map_values(|s: Sibling| s@)
}

/// One full sweep, given for each roster sibling (in roster order) the
/// binary found for it and whether its port answered the probe.
pub fn colony_status(
    cfg: &Config,
    projects: &Vec<Project>,
    binaries: &Vec<Option<String>>,
    port_answers: &Vec<bool>,
    checked_unix: i64,
) -> (r: ColonyStatus)
    requires
        binaries@.len() == ROSTER_LEN,
        port_answers@.len() == ROSTER_LEN,
    ensures
        r.checked_unix == checked_unix,
        siblings_view(r.siblings@).len() == ROSTER_LEN,
        forall|i: int|
            0 <= i < ROSTER_LEN ==> #[trigger] siblings_view(r.siblings@)[i] == sibling_spec(
                roster_spec()[i],
                *cfg,
                projects_view(projects@),
                opt_str_view(binaries@[i]),
                port_answers@[i],
            ),
{
    let ros = roster();
    assert(roster_spec().len() == ROSTER_LEN);
    let mut out: Vec<Sibling> = Vec::new();
    let mut i: usize = 0;
    while i < ros.len()
        invariant
            roster_view(ros@) == roster_spec(),
            ros@.len() == ROSTER_LEN,
            binaries@.len() == ROSTER_LEN,
            port_answers@.len() == ROSTER_LEN,
            i <= ROSTER_LEN,
            out@.len() == i,
            forall|k: int|
                0 <= k < i ==> #[trigger] out@[k]@ == sibling_spec(
                    roster_spec()[k],
                    *cfg,
                    projects_view(projects@),
                    opt_str_view(binaries@[k]),
                    port_answers@[k],
                ),
        decreases ROSTER_LEN - i,
    {
        assert(ros@[i as int]@ == roster_spec()[i as int]);
        let b = crate::protocol::copy_opt_string(&binaries[i]);
        out.push(sibling(&ros[i], cfg, projects, b, port_answers[i]));
        i += 1;
    }
    ColonyStatus { siblings: out, checked_unix }
}

/// Every URL the panel shows is on the loopback host.
pub proof fn law_urls_are_loopback(e: RosterEntryView, cfg: Config, ps: Seq<ProjectView>, binary: Option<Seq<char>>, answered: bool)
    ensures
        match sibling_spec(e, cfg, ps, binary, answered).url {
            Some(u) => crate::text::starts_with(u, "http://127.0.0.1:"@),
            None => true,
        },
        sibling_spec(e, cfg, ps, binary, answered).url is Some <==> (e.surface == SiblingSurface::WebUi
            && effective_port_spec(cfg, e) is Some),
        sibling_spec(e, cfg, ps, binary, answered).live is Some <==> effective_port_spec(cfg, e) is Some,
{
    match sibling_spec(e, cfg, ps, binary, answered).url {
        Some(u) => {
            let p = effective_port_spec(cfg, e)->0;
            assert(u == loopback_url(p));
            assert(u.subrange(0, "http://127.0.0.1:"@.len() as int) =~= "http://127.0.0.1:"@);
        },
        None => {},
    }
}

// ---------------------------------------------------------------------
// Installed binaries
// ---------------------------------------------------------------------

/// Executable: a regular file with any execute bit set.
pub fn is_executable(is_file: bool, mode: u32) -> (r: bool)
    ensures
        r == (is_file && (mode & 0o111u32) != 0),
{
    is_file && (mode & 0o111u32) != 0
}

/// Within one binary name: the first install dir whose candidate is
/// executable.
pub open spec fn find_in_dirs(dirs: Seq<Seq<char>>, name: Seq<char>, executable: Seq<bool>) -> Option<Seq<char>>
    decreases dirs.len(),
{
    if dirs.len() == 0 {
        None
    } else if executable.len() > 0 && executable[0] {
        Some(path_join(dirs[0], name))
    } else {
        find_in_dirs(dirs.drop_first(), name, executable.drop_first())
    }
}

/// Names in order (most telling first), each looked for in every dir in
/// order; `executable[n][d]` says whether `<dirs[d]>/<names[n]>` is
/// executable.
pub open spec fn find_binary_spec(dirs: Seq<Seq<char>>, names: Seq<Seq<char>>, executable: Seq<Seq<bool>>) -> Option<Seq<char>>
    decreases names.len(),
{
    if names.len() == 0 {
        None
    } else {
        match find_in_dirs(dirs, names[0], executable[0]) {
            Some(p) => Some(p),
            None => find_binary_spec(dirs, names.drop_first(), executable.drop_first()),
        }
    }
}

pub fn find_binary(dirs: &Vec<String>, names: &Vec<String>, executable: &Vec<Vec<bool>>) -> (r: Option<String>)
    requires
        executable@.len() == names@.len(),
        forall|n: int| 0 <= n < names@.len() ==> #[trigger] executable@[n]@.len() == dirs@.len(),
    ensures
        opt_str_view(r) == find_binary_spec(strings_view(dirs@), strings_view(names@), executable.deep_view()),
{
    let ghost dv = strings_view(dirs@);
    let ghost nv = strings_view(names@);
    let ghost ev = executable.deep_view();
    let mut n: usize = 0;
    assert(nv.subrange(0, nv.len() as int) =~= nv);
    assert(ev.subrange(0, ev.len() as int) =~= ev);
    while n < names.len()
        invariant
            n <= nv.len(),
            nv == strings_view(names@),
            dv == strings_view(dirs@),
            ev == executable.deep_view(),
            ev.len() == nv.len(),
            forall|q: int| 0 <= q < nv.len() ==> #[trigger] executable@[q]@.len() == dv.len(),
            find_binary_spec(dv, nv, ev) == find_binary_spec(
                dv,
                nv.subrange(n as int, nv.len() as int),
                ev.subrange(n as int, ev.len() as int),
            ),
        decreases names.len() - n,
    {
        let ghost rn = nv.subrange(n as int, nv.len() as int);
        let ghost re = ev.subrange(n as int, ev.len() as int);
        assert(rn[0] == names@[n as int]@);
        assert(re[0] == executable@[n as int]@);
        assert(rn.drop_first() =~= nv.subrange(n + 1, nv.len() as int));
        assert(re.drop_first() =~= ev.subrange(n + 1, ev.len() as int));
        let row = &executable[n];
        assert(ev[n as int] == executable@[n as int].deep_view());
        assert(executable@[n as int].deep_view() =~= executable@[n as int]@);
        let mut d: usize = 0;
        assert(dv.subrange(0, dv.len() as int) =~= dv);
        assert(row@.subrange(0, row@.len() as int) =~= row@);
        while d < dirs.len()
            invariant
                n < nv.len(),
                nv == strings_view(names@),
                ev == executable.deep_view(),
                ev.len() == nv.len(),
                d <= dv.len(),
                dv == strings_view(dirs@),
                row@.len() == dv.len(),
                find_binary_spec(dv, nv, ev) == (match find_in_dirs(dv, names@[n as int]@, row@) {
                    Some(p) => Some(p),
                    None => find_binary_spec(
                        dv,
                        nv.subrange(n + 1, nv.len() as int),
                        ev.subrange(n + 1, ev.len() as int),
                    ),
                }),
                find_in_dirs(dv, names@[n as int]@, row@) == find_in_dirs(
                    dv.subrange(d as int, dv.len() as int),
                    names@[n as int]@,
                    row@.subrange(d as int, row@.len() as int),
                ),
            decreases dirs.len() - d,
        {
            let ghost rd = dv.subrange(d as int, dv.len() as int);
            let ghost rr = row@.subrange(d as int, row@.len() as int);
            assert(rd[0] == dirs@[d as int]@);
            assert(rr[0] == row@[d as int]);
            assert(rd.drop_first() =~= dv.subrange(d + 1, dv.len() as int));
            assert(rr.drop_first() =~= row@.subrange(d + 1, row@.len() as int));
            if row[d] {
                return Some(join_path(dirs[d].as_str(), names[n].as_str()));
            }
            d += 1;
        }
        n += 1;
    }
    None
}

/// Install dirs, first occurrence kept; two dirs are the same when their
/// components are (as `PathBuf` compares them).
pub open spec fn dedup_paths(s: Seq<Seq<char>>) -> Seq<Seq<char>>
    decreases s.len(),
{
    if s.len() == 0 {
        Seq::empty()
    } else {
        let r = dedup_paths(s.drop_last());
        if exists|j: int| 0 <= j < s.len() - 1 && components(#[trigger] s[j]) == components(s.last()) {
            r
        } else {
            r.push(s.last())
        }
    }
}

/// `$PATH`'s dirs, then `~/.local/bin`, `~/.cargo/bin` and `/usr/local/bin`.
pub open spec fn install_dirs_spec(path_dirs: Seq<Seq<char>>, home: Option<Seq<char>>) -> Seq<Seq<char>> {
    dedup_paths(
        path_dirs + seq![
            expand_tilde_spec("~/.local/bin"@, home),
            expand_tilde_spec("~/.cargo/bin"@, home),
            "/usr/local/bin"@,
        ],
    )
}

fn dedup_exec(v: &Vec<String>) -> (r: Vec<String>)
    ensures
        strings_view(r@) == dedup_paths(strings_view(v@)),
{
    let ghost sv = strings_view(v@);
    let mut comps: Vec<Vec<Vec<char>>> = Vec::new();
    let mut out: Vec<String> = Vec::new();
    let mut i: usize = 0;
    while i < v.len()
        invariant
            i <= sv.len(),
            sv == strings_view(v@),
            comps@.len() == i,
            forall|k: int| 0 <= k < i ==> #[trigger] comps@[k].deep_view() == components(sv[k]),
            strings_view(out@) == dedup_paths(sv.subrange(0, i as int)),
        decreases v.len() - i,
    {
        let c = components_of(v[i].as_str());
        let mut seen = false;
        let mut j: usize = 0;
        while j < i
            invariant
                j <= i,
                i < sv.len(),
                comps@.len() == i,
                forall|k: int| 0 <= k < i ==> #[trigger] comps@[k].deep_view() == components(sv[k]),
                c.deep_view() == components(sv[i as int]),
                seen <==> exists|k: int| 0 <= k < j && components(#[trigger] sv[k]) == components(sv[i as int]),
            decreases i - j,
        {
            if same_components(&comps[j], &c) {
                seen = true;
            }
            assert(comps@[j as int].deep_view() == components(sv[j as int]));
            j += 1;
        }
        let ghost pre = sv.subrange(0, i as int);
        let ghost nxt = sv.subrange(0, i + 1);
        assert(nxt.drop_last() =~= pre);
        assert(nxt.last() == sv[i as int]);
        assert((exists|k: int| 0 <= k < nxt.len() - 1 && components(#[trigger] nxt[k]) == components(nxt.last()))
            <==> (exists|k: int| 0 <= k < i && components(#[trigger] sv[k]) == components(sv[i as int]))) by {
            if exists|k: int| 0 <= k < i && components(#[trigger] sv[k]) == components(sv[i as int]) {
                let k = choose|k: int| 0 <= k < i && components(#[trigger] sv[k]) == components(sv[i as int]);
                assert(nxt[k] == sv[k]);
            }
            if exists|k: int| 0 <= k < nxt.len() - 1 && components(#[trigger] nxt[k]) == components(nxt.last()) {
                let k = choose|k: int| 0 <= k < nxt.len() - 1 && components(#[trigger] nxt[k]) == components(nxt.last());
                assert(nxt[k] == sv[k]);
            }
        }
        if !seen {
            let ghost before = strings_view(out@);
            out.push(crate::protocol::copy_string(&v[i]));
            assert(strings_view(out@) =~= before.push(sv[i as int]));
        }
        comps.push(c);
        i += 1;
    }
    assert(sv.subrange(0, sv.len() as int) =~= sv);
    out
}

fn same_components(a: &Vec<Vec<char>>, b: &Vec<Vec<char>>) -> (r: bool)
    ensures
        r == (a.deep_view() == b.deep_view()),
{
    if a.len() != b.len() {
        assert(a.deep_view().len() != b.deep_view().len());
        return false;
    }
    let mut k: usize = 0;
    while k < a.len()
        invariant
            a@.len() == b@.len(),
            k <= a@.len(),
            forall|q: int| 0 <= q < k ==> a.deep_view()[q] == b.deep_view()[q],
        decreases a.len() - k,
    {
        proof {
            crate::text::lemma_char_vec_deep(a@[k as int]);
            crate::text::lemma_char_vec_deep(b@[k as int]);
        }
        if !chars_eq(&a[k], &b[k]) {
            assert(a.deep_view()[k as int] != b.deep_view()[k as int]);
            return false;
        }
        k += 1;
    }
    assert(a.deep_view() =~= b.deep_view());
    true
}

/// The dirs searched for sibling binaries, given `$PATH` split into dirs.
pub fn install_dirs(path_dirs: &Vec<String>) -> (r: Vec<String>)
    ensures
        exists|home: Option<Seq<char>>| strings_view(r@) == install_dirs_spec(strings_view(path_dirs@), home),
{
    let home = home_dir();
    let mut all: Vec<String> = Vec::new();
    let mut i: usize = 0;
    while i < path_dirs.len()
        invariant
            i <= path_dirs@.len(),
            strings_view(all@) == strings_view(path_dirs@).subrange(0, i as int),
        decreases path_dirs.len() - i,
    {
        let ghost before = strings_view(all@);
        all.push(crate::protocol::copy_string(&path_dirs[i]));
        assert(strings_view(all@) =~= before.push(path_dirs@[i as int]@));
        assert(strings_view(all@) =~= strings_view(path_dirs@).subrange(0, i + 1));
        i += 1;
    }
    let ghost base = strings_view(all@);
    all.push(expand_tilde_with("~/.local/bin", &home));
    all.push(expand_tilde_with("~/.cargo/bin", &home));
    all.push(String::from_str("/usr/local/bin"));
    assert(strings_view(path_dirs@).subrange(0, path_dirs@.len() as int) =~= strings_view(path_dirs@));
    assert(strings_view(all@) =~= strings_view(path_dirs@) + seq![
        expand_tilde_spec("~/.local/bin"@, opt_str_view(home)),
        expand_tilde_spec("~/.cargo/bin"@, opt_str_view(home)),
        "/usr/local/bin"@,
    ]);
    let r = dedup_exec(&all);
    assert(strings_view(r@) == install_dirs_spec(strings_view(path_dirs@), opt_str_view(home)));
    r
}

} // verus!
