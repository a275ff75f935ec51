//! One agent as the window shows it.

use crate::colour::Rgba;
use crate::config::AgentConfig;
use crate::label::{lemma_one_line_is_line, truncated};
use crate::text::{chars_of, contains_char, decimal, decimal_string, one_line, texts, to_one_line};
use vstd::prelude::*;

verus! {

/// A permission request that waits for the user's decision.
#[derive(Debug)]
pub struct Pending {
    pub id: String,
    pub tool: String,
    pub detail: String,
}

/// A [`Pending`] as a mathematical value.
pub struct PendingView {
    pub id: Seq<char>,
    pub tool: Seq<char>,
    pub detail: Seq<char>,
}

impl View for Pending {
    type V = PendingView;

    open spec fn view(&self) -> PendingView {
        PendingView { id: self.id@, tool: self.tool@, detail: self.detail@ }
    }
}

/// One row in the activity panel: a compact one-line `summary`, and the full `body` that is shown
/// when the row is expanded. `body` is empty when the summary already shows everything; the row is
/// then flat.
#[derive(Debug)]
pub struct ActivityItem {
    pub summary: String,
    pub body: String,
}

/// An [`ActivityItem`] as a mathematical value.
#[verifier::ext_equal]
pub struct ItemView {
    pub summary: Seq<char>,
    pub body: Seq<char>,
}

impl View for ActivityItem {
    type V = ItemView;

    open spec fn view(&self) -> ItemView {
        ItemView { summary: self.summary@, body: self.body@ }
    }
}

/// The views of a list of activity items.
pub open spec fn items_view(v: Seq<ActivityItem>) -> Seq<ItemView> {
    v.map_values(|a: ActivityItem| a@)
}

/// Whether `full` gets a body of its own: it has several lines, or more words than a summary of eighty
/// characters shows.
pub open spec fn collapses(full: Seq<char>) -> bool {
    full.contains('\n') || one_line(full).len() > 80
}

/// The row for `full` under `summary`.
pub open spec fn item(summary: Seq<char>, full: Seq<char>) -> ItemView {
    ItemView { summary, body: if collapses(full) { full } else { Seq::empty() } }
}

/// The row that is only `summary`.
pub open spec fn flat_item(summary: Seq<char>) -> ItemView {
    ItemView { summary, body: Seq::empty() }
}

impl ActivityItem {
    /// Build from a `summary` line and the `full` content. A body is kept only when `full` adds
    /// something that the summary cannot show on one line: it is multi-line, or the summary
    /// truncated it.
    pub fn new(summary: String, full: String) -> (row: Self)
        ensures
            row@ == item(summary@, full@),
    {
        let keep = contains_char(full.as_str(), '\n') || chars_of(
            to_one_line(full.as_str()).as_str(),
        ).len() > 80;
        let body = if keep {
            full
        } else {
            String::new()
        };
        ActivityItem { summary, body }
    }

    /// A row that is only ever a one-liner, such as a permission decision.
    pub fn line(summary: String) -> (row: Self)
        ensures
            row@ == flat_item(summary@),
    {
        ActivityItem { summary, body: String::new() }
    }
}

/// What the window keeps of one agent.
#[derive(Debug)]
pub struct AgentSession {
    pub id: String,
    pub color: Rgba,
    /// The model and the backend that the agent is configured with, and then those that it reported
    /// when it got ready.
    pub model: String,
    pub backend: String,
    /// Whether the agent has got ready or ended a turn.
    pub ready: bool,
    /// The tokens in and out of the last turn, if the agent has ended one since it got ready.
    pub tokens: Option<(u64, u64)>,
    /// Status-bar text: `model · backend · connecting…|ready|busy`. Once a turn has ended, its
    /// tokens follow `ready` and `busy`, until the next turn ends or the agent gets ready anew.
    pub status: String,
    /// Tool names that the agent reported when it got ready.
    pub tools: Vec<String>,
    /// Tool calls, results and decisions, shown in the activity panel.
    pub activity: Vec<ActivityItem>,
    pub busy: bool,
    pub alive: bool,
    pub pending: Option<Pending>,
    /// Position in the transcript of the agent's reply in progress, so that concurrent agents append
    /// to their own message rather than the last one.
    pub cur: Option<usize>,
}

/// An [`AgentSession`] as a mathematical value.
#[verifier::ext_equal]
pub struct SessionView {
    pub id: Seq<char>,
    pub color: Rgba,
    pub model: Seq<char>,
    pub backend: Seq<char>,
    pub ready: bool,
    pub tokens: Option<(nat, nat)>,
    pub status: Seq<char>,
    pub tools: Seq<Seq<char>>,
    pub activity: Seq<ItemView>,
    pub busy: bool,
    pub alive: bool,
    pub pending: Option<PendingView>,
    pub cur: Option<int>,
}

impl View for AgentSession {
    type V = SessionView;

    open spec fn view(&self) -> SessionView {
        SessionView {
            id: self.id@,
            color: self.color,
            model: self.model@,
            backend: self.backend@,
            ready: self.ready,
            tokens: match self.tokens {
                Some((p, c)) => Some((p as nat, c as nat)),
                None => None,
            },
            status: self.status@,
            tools: texts(self.tools@),
            activity: items_view(self.activity@),
            busy: self.busy,
            alive: self.alive,
            pending: match self.pending {
                Some(p) => Some(p@),
                None => None,
            },
            cur: match self.cur {
                Some(i) => Some(i as int),
                None => None,
            },
        }
    }
}

/// The views of a list of sessions.
pub open spec fn sessions_view(v: Seq<AgentSession>) -> Seq<SessionView> {
    v.map_values(|s: AgentSession| s@)
}

impl SessionView {
    /// The status of the agent while it works on nothing.
    pub open spec fn idle_status(self) -> Seq<char> {
        if !self.ready {
            self.model + " · "@ + self.backend + " · connecting…"@
        } else {
            match self.tokens {
                Some((p, c)) => self.model + " · "@ + self.backend + " · ready · tokens "@
                    + decimal(p) + " in / "@ + decimal(c) + " out"@,
                None => self.model + " · "@ + self.backend + " · ready"@,
            }
        }
    }

    /// The status of the agent while it works on a reply.
    pub open spec fn busy_status(self) -> Seq<char> {
        match self.tokens {
            Some((p, c)) => self.model + " · "@ + self.backend + " · busy · tokens "@ + decimal(p)
                + " in / "@ + decimal(c) + " out"@,
            None => self.model + " · "@ + self.backend + " · busy"@,
        }
    }
}

/// A session that has just been started.
pub open spec fn fresh_session(
    id: Seq<char>,
    model: Seq<char>,
    backend: Seq<char>,
    color: Rgba,
) -> SessionView {
    SessionView {
        id,
        color,
        model,
        backend,
        ready: false,
        tokens: None,
        status: model + " · "@ + backend + " · connecting…"@,
        tools: Seq::empty(),
        activity: Seq::empty(),
        busy: false,
        alive: true,
        pending: None,
        cur: None,
    }
}

/// The status text of an agent: its model, its backend and `rest`.
fn status_text(model: &str, backend: &str, rest: &str) -> (out: String)
    ensures
        out@ == model@ + " · "@ + backend@ + rest@,
{
    let mut out = model.to_owned();
    out.append(" · ");
    out.append(backend);
    out.append(rest);
    out
}

/// The status text of an agent: its model, its backend, `rest` and the tokens of a turn.
fn tokens_text(model: &str, backend: &str, rest: &str, tokens: (u64, u64)) -> (out: String)
    ensures
        out@ == model@ + " · "@ + backend@ + rest@ + decimal(tokens.0 as nat) + " in / "@
            + decimal(tokens.1 as nat) + " out"@,
{
    let mut out = status_text(model, backend, rest);
    out.append(decimal_string(tokens.0).as_str());
    out.append(" in / ");
    out.append(decimal_string(tokens.1).as_str());
    out.append(" out");
    out
}

impl AgentSession {
    /// The status while the agent works on nothing.
    pub(crate) fn idle_status(&self) -> (out: String)
        ensures
            out@ == self@.idle_status(),
    {
        let model = self.model.as_str();
        let backend = self.backend.as_str();
        if !self.ready {
            status_text(model, backend, " · connecting…")
        } else {
            match self.tokens {
                Some(t) => tokens_text(model, backend, " · ready · tokens ", t),
                None => status_text(model, backend, " · ready"),
            }
        }
    }

    /// The status while the agent works on a reply.
    pub(crate) fn busy_status(&self) -> (out: String)
        ensures
            out@ == self@.busy_status(),
    {
        let model = self.model.as_str();
        let backend = self.backend.as_str();
        match self.tokens {
            Some(t) => tokens_text(model, backend, " · busy · tokens ", t),
            None => status_text(model, backend, " · busy"),
        }
    }

    /// The session of an agent whose process has just been started.
    pub fn new<P>(cfg: &AgentConfig<P>, color: Rgba) -> (s: Self)
        ensures
            s@ == fresh_session(cfg.agent_id@, cfg.model@, cfg.backend@, color),
    {
        AgentSession {
            id: cfg.agent_id.clone(),
            color,
            model: cfg.model.clone(),
            backend: cfg.backend.clone(),
            ready: false,
            tokens: None,
            status: status_text(cfg.model.as_str(), cfg.backend.as_str(), " · connecting…"),
            tools: Vec::new(),
            activity: Vec::new(),
            busy: false,
            alive: true,
            pending: None,
            cur: None,
        }
    }
}

/// A row without a body leaves nothing out: an eighty-character summary of `full` has all its words.
pub proof fn law_flat_row_shows_all(summary: Seq<char>, full: Seq<char>)
    requires
        item(summary, full).body.len() == 0,
    ensures
        truncated(full, 80) == one_line(full),
{
    lemma_one_line_is_line(full);
}

/// A row has a body, which is then all of `full`, exactly when one line cannot show `full`: it has
/// several lines, or its words are too long for eighty characters, so that the summary is cut.
pub proof fn law_body_adds_something(summary: Seq<char>, full: Seq<char>)
    ensures
        item(summary, full).body.len() > 0 <==> full.contains('\n') || one_line(full).len() > 80,
        item(summary, full).body.len() > 0 ==> item(summary, full).body == full,
        one_line(full).len() > 80 ==> truncated(full, 80) == one_line(full).take(80).push('…'),
{
    lemma_one_line_is_line(full);
}

/// A row shows its summary whatever its body; a row that is only a line has no body.
pub proof fn law_rows_show_summary(summary: Seq<char>, full: Seq<char>)
    ensures
        item(summary, full).summary == summary,
        flat_item(summary).summary == summary,
        flat_item(summary).body == Seq::<char>::empty(),
{
}

/// A session starts with the agent's name, model, backend and colour. It is alive and connecting; it
/// has no tools, no activity, no request and no reply yet.
pub proof fn law_session_starts_empty(
    id: Seq<char>,
    model: Seq<char>,
    backend: Seq<char>,
    color: Rgba,
)
    ensures
        ({
            let s = fresh_session(id, model, backend, color);
            &&& s.id == id && s.model == model && s.backend == backend && s.color == color
            &&& s.status == model + " · "@ + backend + " · connecting…"@
            &&& s.alive && !s.busy && !s.ready
            &&& s.tools.len() == 0 && s.activity.len() == 0
            &&& s.tokens is None && s.pending is None && s.cur is None
        }),
{
}

/// What a status says: connecting until the agent got ready, then ready or busy, and the tokens of the
/// last turn once there was one.
pub proof fn law_status_texts(s: SessionView, p: nat, c: nat)
    ensures
        !s.ready ==> s.idle_status() == s.model + " · "@ + s.backend + " · connecting…"@,
        s.ready && s.tokens is None ==> s.idle_status() == s.model + " · "@ + s.backend
            + " · ready"@,
        s.ready && s.tokens == Some((p, c)) ==> s.idle_status() == s.model + " · "@ + s.backend
            + " · ready · tokens "@ + decimal(p) + " in / "@ + decimal(c) + " out"@,
        s.tokens is None ==> s.busy_status() == s.model + " · "@ + s.backend + " · busy"@,
        s.tokens == Some((p, c)) ==> s.busy_status() == s.model + " · "@ + s.backend
            + " · busy · tokens "@ + decimal(p) + " in / "@ + decimal(c) + " out"@,
{
}

/// A session means what its fields hold.
pub proof fn law_session_means_its_fields(s: AgentSession, k: int)
    ensures
        s@.id == s.id@ && s@.color == s.color && s@.model == s.model@ && s@.backend == s.backend@,
        s@.ready == s.ready && s@.status == s.status@ && s@.busy == s.busy && s@.alive == s.alive,
        s@.tokens is Some <==> s.tokens is Some,
        s.tokens matches Some((p, c)) ==> s@.tokens == Some((p as nat, c as nat)),
        s@.tools.len() == s.tools@.len() && s@.activity.len() == s.activity@.len(),
        0 <= k < s.tools@.len() ==> s@.tools[k] == s.tools@[k]@,
        0 <= k < s.activity@.len() ==> s@.activity[k].summary == s.activity@[k].summary@
            && s@.activity[k].body == s.activity@[k].body@,
        s@.pending is Some <==> s.pending is Some,
        s.pending is Some ==> s@.pending->0.id == s.pending->0.id@ && s@.pending->0.tool
            == s.pending->0.tool@ && s@.pending->0.detail == s.pending->0.detail@,
        s@.cur is Some <==> s.cur is Some,
        s.cur is Some ==> s@.cur->0 == s.cur->0,
{
}

} // verus!
