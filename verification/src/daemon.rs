//! The daemon's own decisions: search defaults, which project a route
//! names, the content type of a served image, the cleaning of a doc's
//! rendered HTML, and what a WebSocket session does with each broadcast.
//! Sockets, the router, the tasks and the markdown renderer are the
//! application's.

use vstd::prelude::*;

use crate::colony::{named_path, project_path};
use crate::config::Config;
use crate::protocol::{projects_view, Event, Project};
use crate::search::{after_dot_exec, after_last_dot};
use crate::text::{lowercase, str_eq, to_lower};

verus! {

/// Hits returned when a search names no limit.
pub const DEFAULT_SEARCH_LIMIT: usize = 30;

/// HTTP status of a project name the daemon has not scanned.
pub const NOT_FOUND: u16 = 404;

/// `limit` when the query string has none.
pub fn default_limit() -> (r: usize)
    ensures
        r == DEFAULT_SEARCH_LIMIT,
{
    DEFAULT_SEARCH_LIMIT
}

/// Projects are addressed by name and resolved only through the daemon's
/// own scan: the directory, or 404 with the reason.
pub fn lookup_project(projects: &Vec<Project>, name: &str) -> (r: Result<String, (u16, String)>)
    ensures
        match named_path(projects_view(projects@), name@) {
            Some(dir) => r is Ok && r->Ok_0@ == dir,
            None => r is Err && r->Err_0.0 == NOT_FOUND && r->Err_0.1@ == "unknown project: "@ + name@,
        },
{
    match project_path(projects, name) {
        Some(d) => Ok(d),
        None => Err((NOT_FOUND, crate::mcp::unknown_project(name))),
    }
}

/// The cortex layer runs when the feature is on and a command is set.
pub fn cortex_enabled(cfg: &Config) -> (r: bool)
    ensures
        r == (cfg.features.cerebro && cfg.cortex.command@.len() > 0),
{
    cfg.features.cerebro && crate::text::chars_of(cfg.cortex.command.as_str()).len() > 0
}

/// Content type by the (lowercased) text after the path's last `.`.
pub open spec fn mime_spec(ext: Seq<char>) -> Seq<char> {
    if ext == "png"@ {
        "image/png"@
    } else if ext == "jpg"@ || ext == "jpeg"@ {
        "image/jpeg"@
    } else if ext == "gif"@ {
        "image/gif"@
    } else if ext == "svg"@ {
        "image/svg+xml"@
    } else if ext == "webp"@ {
        "image/webp"@
    } else if ext == "ico"@ {
        "image/x-icon"@
    } else if ext == "bmp"@ {
        "image/bmp"@
    } else if ext == "avif"@ {
        "image/avif"@
    } else {
        "application/octet-stream"@
    }
}

pub fn mime_type(path: &str) -> (r: &'static str)
    ensures
        r@ == mime_spec(lowercase(after_last_dot(path@))),
{
    let dot = after_dot_exec(path);
    let lower = to_lower(dot.as_str());
    let e = lower.as_str();
    if str_eq(e, "png") {
        "image/png"
    } else if str_eq(e, "jpg") || str_eq(e, "jpeg") {
        "image/jpeg"
    } else if str_eq(e, "gif") {
        "image/gif"
    } else if str_eq(e, "svg") {
        "image/svg+xml"
    } else if str_eq(e, "webp") {
        "image/webp"
    } else if str_eq(e, "ico") {
        "image/x-icon"
    } else if str_eq(e, "bmp") {
        "image/bmp"
    } else if str_eq(e, "avif") {
        "image/avif"
    } else {
        "application/octet-stream"
    }
}

/// What `ammonia::clean` keeps of an HTML fragment.
pub uninterp spec fn sanitized_html(html: Seq<char>) -> Seq<char>;

/// `ammonia::clean`: the fragment with scripts, handlers and other active
/// content removed under ammonia's default policy. Its output is a
/// function of the input alone; the claim is only that.
#[verifier::external_body]
fn ammonia_clean(html: &str) -> (r: String)
    ensures
        r@ == sanitized_html(html@),
{
    ammonia::clean(html)
}

/// Rendered doc HTML made safe to show: anything active is removed,
/// because the dashboard's origin can write files and cloned docs must
/// never execute in it.
pub fn sanitize_html(html: &str) -> (r: String)
    ensures
        r@ == sanitized_html(html@),
{
    ammonia_clean(html)
}

/// What a WebSocket session received from the broadcast channel.
pub enum Broadcast {
    /// A frame for every client.
    Frame(Event),
    /// The session fell behind and missed frames.
    Lagged,
    /// The channel is gone.
    Closed,
}

/// What the session does next.
pub enum SessionStep {
    /// Send this frame.
    Send(Event),
    /// Send a fresh snapshot: it covers whatever was missed.
    SendSnapshot,
    /// End the session.
    Stop,
}

pub fn session_step(b: Broadcast) -> (r: SessionStep)
    ensures
        match b {
            Broadcast::Frame(e) => r == SessionStep::Send(e),
            Broadcast::Lagged => r == SessionStep::SendSnapshot,
            Broadcast::Closed => r == SessionStep::Stop,
        },
{
    match b {
        Broadcast::Frame(e) => SessionStep::Send(e),
        Broadcast::Lagged => SessionStep::SendSnapshot,
        Broadcast::Closed => SessionStep::Stop,
    }
}

} // verus!
