//! The window's state and how events change it.

use crate::label::{short, short_name, truncate, truncated};
use crate::protocol::{ChatEvent, EventView};
use crate::session::{
    item, sessions_view, ActivityItem, AgentSession, ItemView, Pending, PendingView, SessionView,
};
use crate::text::{decimal, decimal_string, join, joined, one_line, same, texts};
use vstd::prelude::*;

verus! {

/// Who a line of the transcript comes from.
#[derive(Clone, Copy, Debug, PartialEq, Eq, Structural)]
pub enum Who {
    User,
    Agent,
    System,
}

/// One line in the shared transcript. `agent` is the position of the session for `Who::Agent`; it
/// says nothing for user and system lines.
#[derive(Debug)]
pub struct Msg {
    pub who: Who,
    pub agent: usize,
    pub text: String,
}

/// A [`Msg`] as a mathematical value.
#[verifier::ext_equal]
pub struct MsgView {
    pub who: Who,
    pub agent: int,
    pub text: Seq<char>,
}

impl View for Msg {
    type V = MsgView;

    open spec fn view(&self) -> MsgView {
        MsgView { who: self.who, agent: self.agent as int, text: self.text@ }
    }
}

/// The views of a list of transcript lines.
pub open spec fn msgs_view(v: Seq<Msg>) -> Seq<MsgView> {
    v.map_values(|m: Msg| m@)
}

/// The chat window: one session per agent, the shared transcript, the input line and the permission
/// mode.
#[derive(Debug)]
pub struct ChatApp {
    pub sessions: Vec<AgentSession>,
    pub convo: Vec<Msg>,
    pub input: String,
    /// The permission mode that the agents acknowledged last.
    pub mode: String,
}

/// A [`ChatApp`] as a mathematical value.
#[verifier::ext_equal]
pub struct ChatView {
    pub sessions: Seq<SessionView>,
    pub convo: Seq<MsgView>,
    pub input: Seq<char>,
    pub mode: Seq<char>,
}

impl View for ChatApp {
    type V = ChatView;

    open spec fn view(&self) -> ChatView {
        ChatView {
            sessions: sessions_view(self.sessions@),
            convo: msgs_view(self.convo@),
            input: self.input@,
            mode: self.mode@,
        }
    }
}

impl ChatView {
    /// Every agent line names a session, and a reply in progress is a line of its own agent.
    pub open spec fn wf(self) -> bool {
        &&& forall|i: int|
            0 <= i < self.convo.len() && (#[trigger] self.convo[i]).who == Who::Agent ==> 0
                <= self.convo[i].agent < self.sessions.len()
        &&& forall|s: int|
            0 <= s < self.sessions.len() && (#[trigger] self.sessions[s]).cur is Some
                ==> self.is_line_of(self.sessions[s].cur->0, s)
    }

    /// The transcript has a line at `i`, and it is a line of agent `s`.
    pub open spec fn is_line_of(self, i: int, s: int) -> bool {
        &&& 0 <= i < self.convo.len()
        &&& self.convo[i].who == Who::Agent
        &&& self.convo[i].agent == s
    }

    pub open spec fn team(self) -> bool {
        self.sessions.len() > 1
    }

    pub open spec fn any_alive(self) -> bool {
        exists|i: int| 0 <= i < self.sessions.len() && (#[trigger] self.sessions[i]).alive
    }

    pub open spec fn any_busy(self) -> bool {
        exists|i: int| 0 <= i < self.sessions.len() && (#[trigger] self.sessions[i]).busy
    }

    /// The window with one more line at the end of the transcript.
    pub open spec fn with_msg(self, who: Who, agent: int, text: Seq<char>) -> ChatView {
        ChatView { convo: self.convo.push(MsgView { who, agent, text }), ..self }
    }

    /// The window with one more system line.
    pub open spec fn say(self, text: Seq<char>) -> ChatView {
        self.with_msg(Who::System, 0, text)
    }

    /// The window with another session at `i`.
    pub open spec fn with_session(self, i: int, s: SessionView) -> ChatView {
        ChatView { sessions: self.sessions.update(i, s), ..self }
    }

    /// The window after agent `i` has opened a reply with `text`.
    pub open spec fn open_reply(self, i: int, text: Seq<char>) -> ChatView {
        self.with_msg(Who::Agent, i, text).with_session(
            i,
            SessionView { cur: Some(self.convo.len() as int), ..self.sessions[i] },
        )
    }

    /// The window with another text in the transcript's line at `i`.
    pub open spec fn with_text(self, i: int, text: Seq<char>) -> ChatView {
        ChatView { convo: self.convo.update(i, MsgView { text, ..self.convo[i] }), ..self }
    }

    /// The window with one more activity row for agent `i`.
    pub open spec fn with_row(self, i: int, row: ItemView) -> ChatView {
        let s = self.sessions[i];
        self.with_session(i, SessionView { activity: s.activity.push(row), ..s })
    }

    /// Whether agent `i` can have event `ev`: an event that changes a session, or adds a line of an
    /// agent, needs the session to be there.
    pub open spec fn takes(self, i: int, ev: EventView) -> bool {
        ||| 0 <= i < self.sessions.len()
        ||| ev is ModeChanged
        ||| ev is Compacted
        ||| ev is Restored && ev->role == "user"@
    }

    /// The window after event `ev` of agent `i`.
    pub open spec fn applied(self, i: int, ev: EventView) -> ChatView {
        let s = self.sessions[i];
        match ev {
            EventView::Ready { model, backend, tools } => self.with_session(
                i,
                SessionView {
                    model,
                    backend,
                    ready: true,
                    tokens: None,
                    status: model + " · "@ + backend + " · ready"@,
                    tools,
                    ..s
                },
            ),
            EventView::Restored { role, text } => self.with_msg(
                if role == "user"@ {
                    Who::User
                } else {
                    Who::Agent
                },
                i,
                text,
            ),
            EventView::Token { text } => match s.cur {
                Some(at) => self.with_text(at, self.convo[at].text + text),
                None => self.open_reply(i, text),
            },
            EventView::Message { text } => match s.cur {
                Some(at) => self.with_text(at, text),
                None => self.open_reply(i, text),
            },
            EventView::ToolCall { name, args } => self.with_row(
                i,
                item("» "@ + name + " "@ + truncated(args, 80), args),
            ),
            EventView::ToolResult { name, ok, output } => self.with_row(
                i,
                item(
                    (if ok {
                        "[ok]"@
                    } else {
                        "[err]"@
                    }) + " "@ + name + ": "@ + truncated(output, 80),
                    output,
                ),
            ),
            EventView::PermissionRequest { id, tool, detail } => self.with_session(
                i,
                SessionView { pending: Some(PendingView { id, tool, detail }), ..s },
            ),
            EventView::ModeChanged { mode } => if self.mode == mode {
                self
            } else {
                ChatView { mode, ..self }.say("permission mode → "@ + mode)
            },
            EventView::Compacted { removed } => self.with_msg(
                Who::System,
                i,
                "context compacted — folded "@ + decimal(removed) + " earlier messages"@,
            ),
            EventView::TurnEnd { prompt_tokens, completion_tokens } => self.with_session(
                i,
                SessionView {
                    busy: false,
                    cur: None,
                    ready: true,
                    tokens: Some((prompt_tokens, completion_tokens)),
                    status: s.model + " · "@ + s.backend + " · ready · tokens "@ + decimal(
                        prompt_tokens,
                    ) + " in / "@ + decimal(completion_tokens) + " out"@,
                    ..s
                },
            ),
            EventView::Error { message } => self.with_session(
                i,
                SessionView {
                    busy: false,
                    cur: None,
                    status: if s.busy {
                        s.idle_status()
                    } else {
                        s.status
                    },
                    ..s
                },
            ).with_msg(Who::System, i, s.id + " error: "@ + message),
            EventView::Bye => self.with_session(i, SessionView { alive: false, ..s }).with_msg(
                Who::System,
                i,
                s.id + " session ended."@,
            ),
        }
    }
}

/// The short names of the agents.
pub open spec fn short_names(sessions: Seq<SessionView>) -> Seq<Seq<char>> {
    sessions.map_values(|s: SessionView| short_name(s.id))
}

/// The short names of the agents, each after an `@`.
pub open spec fn mentions(sessions: Seq<SessionView>) -> Seq<Seq<char>> {
    sessions.map_values(|s: SessionView| "@"@ + short_name(s.id))
}

/// The first line of the transcript.
pub open spec fn greeting(sessions: Seq<SessionView>) -> Seq<char> {
    if sessions.len() == 1 {
        "Connected. Type a message and press Enter — or /help for commands."@
    } else {
        "Team connected ("@ + decimal(sessions.len())
            + " agents). A message goes to all; prefix "@ + joined(mentions(sessions), " / "@)
            + " to address one. /help for commands."@
    }
}

/// The title of a window for `sessions`.
pub open spec fn title(sessions: Seq<SessionView>) -> Seq<char> {
    if sessions.len() == 1 {
        "bwoc · "@ + sessions[0].id
    } else {
        "bwoc team · "@ + joined(short_names(sessions), ", "@)
    }
}

/// A window that has just been opened.
pub open spec fn opened(sessions: Seq<SessionView>) -> ChatView {
    ChatView {
        sessions,
        convo: seq![MsgView { who: Who::System, agent: 0, text: greeting(sessions) }],
        input: Seq::empty(),
        mode: "default"@,
    }
}

/// The short names of `sessions`, each after `prefix`.
fn names_after(prefix: &str, sessions: &Vec<AgentSession>) -> (names: Vec<String>)
    ensures
        texts(names@) == sessions_view(sessions@).map_values(
            |s: SessionView| prefix@ + short_name(s.id),
        ),
{
    let mut names: Vec<String> = Vec::new();
    let ghost all = sessions_view(sessions@).map_values(
        |s: SessionView| prefix@ + short_name(s.id),
    );
    let mut i: usize = 0;
    while i < sessions.len()
        invariant
            i <= sessions.len(),
            all == sessions_view(sessions@).map_values(
                |s: SessionView| prefix@ + short_name(s.id),
            ),
            texts(names@) == all.take(i as int),
        decreases sessions.len() - i,
    {
        let mut name = prefix.to_owned();
        name.append(short(sessions[i].id.as_str()));
        let ghost sofar = texts(names@);
        assert(name@ == all[i as int]);
        names.push(name);
        assert(texts(names@) =~= sofar.push(name@));
        assert(texts(names@) =~= all.take(i + 1));
        i += 1;
    }
    assert(all.take(i as int) == all);
    names
}

/// The title of a window for `sessions`.
pub fn window_title(sessions: &Vec<AgentSession>) -> (out: String)
    ensures
        out@ == title(sessions_view(sessions@)),
{
    if sessions.len() == 1 {
        let mut out = "bwoc · ".to_owned();
        out.append(sessions[0].id.as_str());
        out
    } else {
        let names = names_after("", sessions);
        proof {
            reveal_strlit("");
            assert(texts(names@) =~= short_names(sessions_view(sessions@))) by {
                assert forall|i: int| 0 <= i < sessions.len() implies texts(names@)[i]
                    == #[trigger] short_names(sessions_view(sessions@))[i] by {
                    assert(""@ + short_name(sessions[i].id@) =~= short_name(sessions[i].id@));
                }
            }
        }
        let mut out = "bwoc team · ".to_owned();
        out.append(join(&names, ", ").as_str());
        out
    }
}

impl ChatApp {
    /// See [`ChatView::wf`].
    pub open spec fn wf(&self) -> bool {
        self@.wf()
    }

    /// A window for `sessions`, with a greeting.
    pub fn new(sessions: Vec<AgentSession>) -> (app: Self)
        ensures
            app@ == opened(sessions_view(sessions@)),
            (forall|i: int| 0 <= i < sessions.len() ==> (#[trigger] sessions[i]).cur is None)
                ==> app.wf(),
    {
        let hint = if sessions.len() == 1 {
            "Connected. Type a message and press Enter — or /help for commands.".to_owned()
        } else {
            let names = names_after("@", &sessions);
            let mut hint = "Team connected (".to_owned();
            hint.append(decimal_string(sessions.len() as u64).as_str());
            hint.append(" agents). A message goes to all; prefix ");
            hint.append(join(&names, " / ").as_str());
            hint.append(" to address one. /help for commands.");
            hint
        };
        let mut convo: Vec<Msg> = Vec::new();
        convo.push(Msg { who: Who::System, agent: 0, text: hint });
        let app = ChatApp { sessions, convo, input: String::new(), mode: "default".to_owned() };
        assert(app@ =~= opened(sessions_view(sessions@)));
        app
    }

    /// Whether several agents share the window.
    pub fn team(&self) -> (yes: bool)
        ensures
            yes == self@.team(),
    {
        self.sessions.len() > 1
    }

    /// Whether some session is still alive.
    pub fn any_alive(&self) -> (yes: bool)
        ensures
            yes == self@.any_alive(),
    {
        let mut i: usize = 0;
        while i < self.sessions.len()
            invariant
                i <= self.sessions.len(),
                forall|j: int| 0 <= j < i ==> !self@.sessions[j].alive,
            decreases self.sessions.len() - i,
        {
            if self.sessions[i].alive {
                assert(self@.sessions[i as int].alive);
                return true;
            }
            i += 1;
        }
        false
    }

    /// Whether some agent is working on a reply.
    pub fn any_busy(&self) -> (yes: bool)
        ensures
            yes == self@.any_busy(),
    {
        let mut i: usize = 0;
        while i < self.sessions.len()
            invariant
                i <= self.sessions.len(),
                forall|j: int| 0 <= j < i ==> !self@.sessions[j].busy,
            decreases self.sessions.len() - i,
        {
            if self.sessions[i].busy {
                assert(self@.sessions[i as int].busy);
                return true;
            }
            i += 1;
        }
        false
    }

    /// Add a line to the transcript.
    pub(crate) fn push_msg(&mut self, who: Who, agent: usize, text: String)
        ensures
            final(self)@ == old(self)@.with_msg(who, agent as int, text@),
            final(self).sessions == old(self).sessions,
            final(self).convo.len() == old(self).convo.len() + 1,
    {
        self.convo.push(Msg { who, agent, text });
        assert(self@.convo =~= old(self)@.with_msg(who, agent as int, text@).convo);
    }

    /// Open a reply of agent `idx` with `text`.
    fn open_reply(&mut self, idx: usize, text: String)
        requires
            idx < old(self).sessions.len(),
        ensures
            final(self)@ == old(self)@.open_reply(idx as int, text@),
    {
        let at: usize = self.convo.len();
        self.push_msg(Who::Agent, idx, text);
        self.sessions[idx].cur = Some(at);
        assert(self@ =~= old(self)@.open_reply(idx as int, text@));
    }

    /// Add a row to the activity of agent `idx`.
    pub(crate) fn log(&mut self, idx: usize, row: ActivityItem)
        requires
            idx < old(self).sessions.len(),
        ensures
            final(self)@ == old(self)@.with_row(idx as int, row@),
            final(self).sessions.len() == old(self).sessions.len(),
    {
        self.sessions[idx].activity.push(row);
        assert(self@.sessions[idx as int].activity =~= old(self)@.sessions[idx as int].activity.push(
            row@,
        ));
        assert(self@ =~= old(self)@.with_row(idx as int, row@));
    }

    /// Apply one event from agent `idx`.
    pub fn apply(&mut self, idx: usize, ev: ChatEvent)
        requires
            old(self).wf(),
            old(self)@.takes(idx as int, ev@),
        ensures
            final(self)@ == old(self)@.applied(idx as int, ev@),
            final(self).wf(),
            final(self).sessions.len() == old(self).sessions.len(),
    {
        let ghost before = self@;
        match ev {
            ChatEvent::Ready { model, backend, tools } => {
                self.sessions[idx].model = model;
                self.sessions[idx].backend = backend;
                self.sessions[idx].ready = true;
                self.sessions[idx].tokens = None;
                self.sessions[idx].status = self.sessions[idx].idle_status();
                self.sessions[idx].tools = tools;
            },
            ChatEvent::Restored { role, text } => {
                let who = if same(role.as_str(), "user") {
                    Who::User
                } else {
                    Who::Agent
                };
                self.push_msg(who, idx, text);
            },
            ChatEvent::Token { text } => {
                match self.sessions[idx].cur {
                    Some(at) => {
                        assert(before.sessions[idx as int].cur is Some);
                        self.convo[at].text.append(text.as_str());
                    },
                    None => {
                        self.open_reply(idx, text);
                    },
                }
            },
            ChatEvent::Message { text } => {
                match self.sessions[idx].cur {
                    Some(at) => {
                        assert(before.sessions[idx as int].cur is Some);
                        self.convo[at].text = text;
                    },
                    None => {
                        self.open_reply(idx, text);
                    },
                }
            },
            ChatEvent::ToolCall { name, args } => {
                let mut summary = "» ".to_owned();
                summary.append(name.as_str());
                summary.append(" ");
                summary.append(truncate(args.as_str(), 80).as_str());
                self.log(idx, ActivityItem::new(summary, args));
            },
            ChatEvent::ToolResult { name, ok, output } => {
                let mut summary = if ok {
                    "[ok]".to_owned()
                } else {
                    "[err]".to_owned()
                };
                summary.append(" ");
                summary.append(name.as_str());
                summary.append(": ");
                summary.append(truncate(output.as_str(), 80).as_str());
                self.log(idx, ActivityItem::new(summary, output));
            },
            ChatEvent::PermissionRequest { id, tool, detail } => {
                self.sessions[idx].pending = Some(Pending { id, tool, detail });
            },
            ChatEvent::ModeChanged { mode } => {
                if !same(self.mode.as_str(), mode.as_str()) {
                    let mut text = "permission mode → ".to_owned();
                    text.append(mode.as_str());
                    self.mode = mode;
                    self.push_msg(Who::System, 0, text);
                }
            },
            ChatEvent::Compacted { removed } => {
                let mut text = "context compacted — folded ".to_owned();
                text.append(decimal_string(removed).as_str());
                text.append(" earlier messages");
                self.push_msg(Who::System, idx, text);
            },
            ChatEvent::TurnEnd { prompt_tokens, completion_tokens } => {
                self.sessions[idx].busy = false;
                self.sessions[idx].cur = None;
                self.sessions[idx].ready = true;
                self.sessions[idx].tokens = Some((prompt_tokens, completion_tokens));
                self.sessions[idx].status = self.sessions[idx].idle_status();
            },
            ChatEvent::Error { message } => {
                if self.sessions[idx].busy {
                    self.sessions[idx].status = self.sessions[idx].idle_status();
                }
                self.sessions[idx].busy = false;
                self.sessions[idx].cur = None;
                let mut text = self.sessions[idx].id.clone();
                text.append(" error: ");
                text.append(message.as_str());
                self.push_msg(Who::System, idx, text);
            },
            ChatEvent::Bye => {
                self.sessions[idx].alive = false;
                let mut text = self.sessions[idx].id.clone();
                text.append(" session ended.");
                self.push_msg(Who::System, idx, text);
            },
        }
        proof {
            assert(self@ =~= before.applied(idx as int, ev@));
            before.lemma_applied_wf(idx as int, ev@);
        }
    }
}

impl ChatView {
    /// Events keep the window well formed.
    pub proof fn lemma_applied_wf(self, i: int, ev: EventView)
        requires
            self.wf(),
            self.takes(i, ev),
        ensures
            self.applied(i, ev).wf(),
            self.applied(i, ev).sessions.len() == self.sessions.len(),
            self.applied(i, ev).input == self.input,
    {
        let after = self.applied(i, ev);
        assert forall|k: int|
            0 <= k < after.convo.len() && (#[trigger] after.convo[k]).who == Who::Agent implies 0
            <= after.convo[k].agent < after.sessions.len() by {
            if k < self.convo.len() {
                assert(self.convo[k].who == Who::Agent);
            }
        }
        assert forall|s: int|
            0 <= s < after.sessions.len() && (
            #[trigger] after.sessions[s]).cur is Some implies after.is_line_of(
            after.sessions[s].cur->0,
            s,
        ) by {
            if self.sessions[s].cur is Some {
                assert(self.is_line_of(self.sessions[s].cur->0, s));
            }
        }
    }
}

/// Whether an event is part of a reply.
pub open spec fn is_reply(ev: EventView) -> bool {
    ev is Token || ev is Message
}

/// An event of agent `j` changes nothing of another agent `i`: not its session, and none of its lines
/// in the transcript, a reply in progress included.
pub proof fn law_agents_are_independent(v: ChatView, j: int, ev: EventView, i: int, k: int)
    requires
        v.wf(),
        v.takes(j, ev),
        0 <= i < v.sessions.len(),
        i != j,
    ensures
        v.applied(j, ev).sessions[i] == v.sessions[i],
        v.is_line_of(k, i) ==> v.applied(j, ev).convo[k] == v.convo[k],
{
    if 0 <= j < v.sessions.len() && v.sessions[j].cur is Some {
        assert(v.is_line_of(v.sessions[j].cur->0, j));
    }
}

/// Events never take a line of the transcript away, nor change who said it.
pub proof fn law_events_keep_lines(v: ChatView, i: int, ev: EventView, k: int)
    requires
        v.wf(),
        v.takes(i, ev),
        0 <= k < v.convo.len(),
    ensures
        k < v.applied(i, ev).convo.len(),
        v.applied(i, ev).convo[k].who == v.convo[k].who,
        v.applied(i, ev).convo[k].agent == v.convo[k].agent,
{
}

/// A piece of a reply changes one line of the transcript at most: the reply that it belongs to. It
/// adds a line exactly when the agent has no reply in progress.
pub proof fn law_reply_changes_own_line(v: ChatView, i: int, ev: EventView, k: int)
    requires
        v.wf(),
        0 <= i < v.sessions.len(),
        is_reply(ev),
        0 <= k < v.convo.len(),
        v.sessions[i].cur != Some(k),
    ensures
        v.applied(i, ev).convo[k] == v.convo[k],
        v.applied(i, ev).convo.len() == v.convo.len() + if v.sessions[i].cur is None {
            1int
        } else {
            0
        },
        v.applied(i, ev).sessions[i].cur is Some,
{
}

/// The order in which two agents stream their replies does not matter.
pub proof fn law_replies_commute(v: ChatView, i: int, a: EventView, j: int, b: EventView)
    requires
        v.wf(),
        0 <= i < v.sessions.len(),
        0 <= j < v.sessions.len(),
        i != j,
        is_reply(a),
        is_reply(b),
        v.sessions[i].cur is Some,
        v.sessions[j].cur is Some,
    ensures
        v.applied(i, a).applied(j, b) == v.applied(j, b).applied(i, a),
{
    let x = v.sessions[i].cur->0;
    let y = v.sessions[j].cur->0;
    assert(v.is_line_of(x, i));
    assert(v.is_line_of(y, j));
    assert(v.applied(i, a).applied(j, b).convo =~= v.applied(j, b).applied(i, a).convo);
}

/// The whole reply replaces what was streamed of it.
pub proof fn law_message_overwrites(v: ChatView, i: int, part: Seq<char>, whole: Seq<char>)
    requires
        v.wf(),
        0 <= i < v.sessions.len(),
    ensures
        v.applied(i, EventView::Token { text: part }).applied(
            i,
            EventView::Message { text: whole },
        ) == v.applied(i, EventView::Message { text: whole }),
{
    let token = v.applied(i, EventView::Token { text: part });
    let whole_ev = EventView::Message { text: whole };
    assert(token.applied(i, whole_ev).convo =~= v.applied(i, whole_ev).convo);
    assert(token.applied(i, whole_ev).sessions =~= v.applied(i, whole_ev).sessions);
}

/// A change of mode that several agents acknowledge is shown once.
pub proof fn law_mode_change_shown_once(v: ChatView, i: int, j: int, mode: Seq<char>)
    ensures
        v.applied(i, EventView::ModeChanged { mode }).mode == mode,
        v.applied(i, EventView::ModeChanged { mode }).applied(j, EventView::ModeChanged { mode })
            == v.applied(i, EventView::ModeChanged { mode }),
{
}

/// The end of a turn, and an error, close the agent's reply and leave it idle: what it says next is a
/// new line.
pub proof fn law_turn_ends_reply(v: ChatView, i: int, ev: EventView, next: Seq<char>)
    requires
        v.wf(),
        0 <= i < v.sessions.len(),
        ev is TurnEnd || ev is Error,
    ensures
        !v.applied(i, ev).sessions[i].busy,
        v.applied(i, ev).applied(i, EventView::Token { text: next }).convo == v.applied(
            i,
            ev,
        ).convo.push(MsgView { who: Who::Agent, agent: i, text: next }),
{
}

// ---------------------------------------------------------------------------
// What each event does
// ---------------------------------------------------------------------------

/// From `v` to `w`, nothing changes but the session at `i`.
pub open spec fn only_session_differs(v: ChatView, w: ChatView, i: int) -> bool {
    &&& w.convo == v.convo
    &&& w.input == v.input
    &&& w.mode == v.mode
    &&& others_stay(v.sessions, w.sessions, i)
}

/// From `a` to `b`, no session but the one at `i` changes.
pub open spec fn others_stay(a: Seq<SessionView>, b: Seq<SessionView>, i: int) -> bool {
    &&& b.len() == a.len()
    &&& forall|k: int| 0 <= k < a.len() && k != i ==> #[trigger] b[k] == a[k]
}

/// From `v` to `w`, one line comes to the end of the transcript, and the input line and the mode stay.
pub open spec fn line_added(v: ChatView, w: ChatView, who: Who, agent: int, text: Seq<char>) -> bool {
    &&& w.convo.len() == v.convo.len() + 1
    &&& w.convo.last().who == who
    &&& w.convo.last().agent == agent
    &&& w.convo.last().text == text
    &&& forall|k: int| 0 <= k < v.convo.len() ==> #[trigger] w.convo[k] == v.convo[k]
    &&& w.input == v.input
    &&& w.mode == v.mode
}

/// An agent that gets ready reports its model, its backend and its tools. The status says so.
pub proof fn law_ready(
    v: ChatView,
    i: int,
    model: Seq<char>,
    backend: Seq<char>,
    tools: Seq<Seq<char>>,
)
    requires
        0 <= i < v.sessions.len(),
    ensures
        ({
            let w = v.applied(i, EventView::Ready { model, backend, tools });
            let (s, t) = (v.sessions[i], w.sessions[i]);
            &&& only_session_differs(v, w, i)
            &&& t.status == model + " · "@ + backend + " · ready"@
            &&& t.model == model && t.backend == backend && t.tools == tools
            &&& t.ready && t.tokens is None
            &&& t.id == s.id && t.color == s.color && t.activity == s.activity
            &&& t.busy == s.busy && t.alive == s.alive
            &&& t.pending == s.pending && t.cur == s.cur
        }),
{
}

/// A restored message comes to the transcript as it is: the user's as a line of the user, any other as
/// a line of the agent. It is no reply in progress.
pub proof fn law_restored(v: ChatView, i: int, role: Seq<char>, text: Seq<char>)
    requires
        v.takes(i, EventView::Restored { role, text }),
    ensures
        ({
            let w = v.applied(i, EventView::Restored { role, text });
            let who = if role == "user"@ {
                Who::User
            } else {
                Who::Agent
            };
            &&& line_added(v, w, who, i, text)
            &&& w.sessions == v.sessions
        }),
{
}

/// Where the reply of agent `i` stands in the transcript: its line in progress, or else a new line at
/// the end.
pub open spec fn reply_at(v: ChatView, i: int) -> int {
    match v.sessions[i].cur {
        Some(at) => at,
        None => v.convo.len() as int,
    }
}

/// From `v` to `w`, the reply of agent `i` has got the text `text`, and nothing else has changed but
/// that the reply is in progress.
pub open spec fn reply_reads(v: ChatView, w: ChatView, i: int, text: Seq<char>) -> bool {
    let at = reply_at(v, i);
    let (s, t) = (v.sessions[i], w.sessions[i]);
    &&& 0 <= at < w.convo.len()
    &&& w.convo[at].who == Who::Agent && w.convo[at].agent == i && w.convo[at].text == text
    &&& w.convo.len() == if s.cur is Some {
        v.convo.len()
    } else {
        v.convo.len() + 1
    }
    &&& forall|k: int| 0 <= k < v.convo.len() && k != at ==> #[trigger] w.convo[k] == v.convo[k]
    &&& w.input == v.input && w.mode == v.mode
    &&& others_stay(v.sessions, w.sessions, i)
    &&& t.cur == Some(at)
    &&& t.id == s.id && t.color == s.color && t.model == s.model && t.backend == s.backend
    &&& t.status == s.status && t.ready == s.ready && t.tokens == s.tokens && t.tools == s.tools
    &&& t.activity == s.activity && t.busy == s.busy && t.alive == s.alive
    &&& t.pending == s.pending
}

/// The whole reply stands in the transcript exactly as it came, every character and line break of it,
/// whether or not a part of it was there before.
pub proof fn law_message_is_shown_whole(v: ChatView, i: int, text: Seq<char>)
    requires
        v.wf(),
        0 <= i < v.sessions.len(),
    ensures
        reply_reads(v, v.applied(i, EventView::Message { text }), i, text),
{
    if v.sessions[i].cur is Some {
        assert(v.is_line_of(v.sessions[i].cur->0, i));
    }
}

/// A piece of a reply comes exactly as it is behind what the reply has so far; the first piece opens
/// the reply.
pub proof fn law_token_is_appended(v: ChatView, i: int, text: Seq<char>)
    requires
        v.wf(),
        0 <= i < v.sessions.len(),
    ensures
        ({
            let sofar = match v.sessions[i].cur {
                Some(at) => v.convo[at].text,
                None => Seq::empty(),
            };
            reply_reads(v, v.applied(i, EventView::Token { text }), i, sofar + text)
        }),
{
    if v.sessions[i].cur is Some {
        assert(v.is_line_of(v.sessions[i].cur->0, i));
    } else {
        assert(Seq::<char>::empty() + text =~= text);
    }
}

/// From `v` to `w`, agent `i` has one more row of activity, which shows `summary` and expands to `full`
/// if `full` has several lines or the summary cut it.
pub open spec fn row_added(
    v: ChatView,
    w: ChatView,
    i: int,
    summary: Seq<char>,
    full: Seq<char>,
) -> bool {
    let (s, t) = (v.sessions[i], w.sessions[i]);
    &&& only_session_differs(v, w, i)
    &&& t.activity.len() == s.activity.len() + 1
    &&& forall|k: int| 0 <= k < s.activity.len() ==> #[trigger] t.activity[k] == s.activity[k]
    &&& t.activity.last().summary == summary
    &&& full.contains('\n') || one_line(full).len() > 80 ==> t.activity.last().body == full
    &&& !full.contains('\n') && one_line(full).len() <= 80 ==> t.activity.last().body.len() == 0
    &&& t.id == s.id && t.color == s.color && t.model == s.model && t.backend == s.backend
    &&& t.status == s.status && t.ready == s.ready && t.tokens == s.tokens && t.tools == s.tools
    &&& t.busy == s.busy && t.alive == s.alive && t.pending == s.pending && t.cur == s.cur
}

/// A tool call is logged with the tool's name and a summary of its arguments, a result with whether the
/// tool succeeded, its name and a summary of its output.
pub proof fn law_tools_are_logged(
    v: ChatView,
    i: int,
    name: Seq<char>,
    args: Seq<char>,
    ok: bool,
    output: Seq<char>,
)
    requires
        0 <= i < v.sessions.len(),
    ensures
        row_added(
            v,
            v.applied(i, EventView::ToolCall { name, args }),
            i,
            "» "@ + name + " "@ + truncated(args, 80),
            args,
        ),
        row_added(
            v,
            v.applied(i, EventView::ToolResult { name, ok, output }),
            i,
            if ok {
                "[ok]"@ + " "@ + name + ": "@ + truncated(output, 80)
            } else {
                "[err]"@ + " "@ + name + ": "@ + truncated(output, 80)
            },
            output,
        ),
{
}

/// A permission request waits, with its id, tool and detail as they came, in place of an earlier one.
pub proof fn law_request_waits(
    v: ChatView,
    i: int,
    id: Seq<char>,
    tool: Seq<char>,
    detail: Seq<char>,
)
    requires
        0 <= i < v.sessions.len(),
    ensures
        ({
            let w = v.applied(i, EventView::PermissionRequest { id, tool, detail });
            let (s, t) = (v.sessions[i], w.sessions[i]);
            &&& only_session_differs(v, w, i)
            &&& t.pending is Some
            &&& t.pending->0.id == id && t.pending->0.tool == tool && t.pending->0.detail == detail
            &&& t.id == s.id && t.color == s.color && t.model == s.model && t.backend == s.backend
            &&& t.status == s.status && t.ready == s.ready && t.tokens == s.tokens
            &&& t.tools == s.tools && t.activity == s.activity
            &&& t.busy == s.busy && t.alive == s.alive && t.cur == s.cur
        }),
{
}

/// A new permission mode is taken over and shown in a system line; the mode that is on already changes
/// nothing.
pub proof fn law_mode_is_reflected(v: ChatView, i: int, mode: Seq<char>)
    ensures
        ({
            let w = v.applied(i, EventView::ModeChanged { mode });
            &&& w.mode == mode
            &&& v.mode == mode ==> w == v
            &&& v.mode != mode ==> line_added(
                ChatView { mode, ..v },
                w,
                Who::System,
                0,
                "permission mode → "@ + mode,
            )
            &&& w.sessions == v.sessions
        }),
{
}

/// A compaction is shown in a system line with the number of folded messages.
pub proof fn law_compaction_is_shown(v: ChatView, i: int, removed: nat)
    ensures
        ({
            let w = v.applied(i, EventView::Compacted { removed });
            &&& line_added(
                v,
                w,
                Who::System,
                i,
                "context compacted — folded "@ + decimal(removed) + " earlier messages"@,
            )
            &&& w.sessions == v.sessions
        }),
{
}

/// The end of a turn leaves the agent idle, without a reply in progress, and its status shows the
/// tokens of the turn.
pub proof fn law_turn_end(v: ChatView, i: int, p: nat, c: nat)
    requires
        0 <= i < v.sessions.len(),
    ensures
        ({
            let w = v.applied(i, EventView::TurnEnd { prompt_tokens: p, completion_tokens: c });
            let (s, t) = (v.sessions[i], w.sessions[i]);
            &&& only_session_differs(v, w, i)
            &&& !t.busy && t.cur is None
            &&& t.ready && t.tokens == Some((p, c))
            &&& t.status == s.model + " · "@ + s.backend + " · ready · tokens "@ + decimal(p)
                + " in / "@ + decimal(c) + " out"@
            &&& t.id == s.id && t.color == s.color && t.model == s.model && t.backend == s.backend
            &&& t.tools == s.tools && t.activity == s.activity
            &&& t.alive == s.alive && t.pending == s.pending
        }),
{
}

/// An error is shown in a system line with the agent's id and leaves the agent idle, without a reply in
/// progress.
pub proof fn law_error_is_shown(v: ChatView, i: int, message: Seq<char>)
    requires
        0 <= i < v.sessions.len(),
    ensures
        ({
            let w = v.applied(i, EventView::Error { message });
            let (s, t) = (v.sessions[i], w.sessions[i]);
            &&& line_added(v, w, Who::System, i, s.id + " error: "@ + message)
            &&& others_stay(v.sessions, w.sessions, i)
            &&& !t.busy && t.cur is None
            &&& !s.busy ==> t.status == s.status
            &&& s.busy ==> t.status == s.idle_status()
            &&& t.id == s.id && t.color == s.color && t.model == s.model && t.backend == s.backend
            &&& t.ready == s.ready && t.tokens == s.tokens
            &&& t.tools == s.tools && t.activity == s.activity
            &&& t.alive == s.alive && t.pending == s.pending
        }),
{
}

/// A session that ends is shown in a system line with the agent's id and is no longer alive; all else
/// of it stays.
pub proof fn law_bye_ends_session(v: ChatView, i: int)
    requires
        0 <= i < v.sessions.len(),
    ensures
        ({
            let w = v.applied(i, EventView::Bye);
            let (s, t) = (v.sessions[i], w.sessions[i]);
            &&& line_added(v, w, Who::System, i, s.id + " session ended."@)
            &&& others_stay(v.sessions, w.sessions, i)
            &&& !t.alive
            &&& t.id == s.id && t.color == s.color && t.model == s.model && t.backend == s.backend
            &&& t.status == s.status && t.ready == s.ready && t.tokens == s.tokens
            &&& t.tools == s.tools && t.activity == s.activity
            &&& t.busy == s.busy && t.pending == s.pending && t.cur == s.cur
        }),
{
}

/// A team is more than one agent; a window is alive, or busy, exactly if one of its agents is.
pub proof fn law_window_summary(v: ChatView)
    ensures
        v.team() <==> v.sessions.len() >= 2,
        v.any_alive() <==> !(forall|i: int|
            0 <= i < v.sessions.len() ==> !(#[trigger] v.sessions[i]).alive),
        v.any_busy() <==> !(forall|i: int|
            0 <= i < v.sessions.len() ==> !(#[trigger] v.sessions[i]).busy),
{
}

/// A new window has the given agents, an empty input line, the default mode and one system line: a
/// greeting that, unless there is just one agent, gives the number of agents and how to mention each.
pub proof fn law_new_window(sessions: Seq<SessionView>)
    ensures
        ({
            let w = opened(sessions);
            &&& w.sessions == sessions && w.input.len() == 0 && w.mode == "default"@
            &&& w.convo.len() == 1 && w.convo[0].who == Who::System && w.convo[0].agent == 0
            &&& sessions.len() == 1 ==> w.convo[0].text
                == "Connected. Type a message and press Enter — or /help for commands."@
            &&& sessions.len() != 1 ==> w.convo[0].text == "Team connected ("@ + decimal(
                sessions.len(),
            ) + " agents). A message goes to all; prefix "@ + joined(
                Seq::new(sessions.len(), |k: int| "@"@ + short_name(sessions[k].id)),
                " / "@,
            ) + " to address one. /help for commands."@
        }),
{
    assert(mentions(sessions) =~= Seq::new(
        sessions.len(),
        |k: int| "@"@ + short_name(sessions[k].id),
    ));
}

/// The title of a window names its agent, or its agents by their short names.
pub proof fn law_title_names_agents(sessions: Seq<SessionView>)
    ensures
        sessions.len() == 1 ==> title(sessions) == "bwoc · "@ + sessions[0].id,
        sessions.len() != 1 ==> title(sessions) == "bwoc team · "@ + joined(
            Seq::new(sessions.len(), |k: int| short_name(sessions[k].id)),
            ", "@,
        ),
{
    assert(short_names(sessions) =~= Seq::new(
        sessions.len(),
        |k: int| short_name(sessions[k].id),
    ));
}

/// A window means what its fields hold.
pub proof fn law_window_means_its_fields(app: ChatApp, k: int)
    ensures
        app@.input == app.input@ && app@.mode == app.mode@,
        app@.sessions.len() == app.sessions@.len() && app@.convo.len() == app.convo@.len(),
        0 <= k < app.sessions@.len() ==> app@.sessions[k] == app.sessions@[k]@,
        0 <= k < app.convo@.len() ==> app@.convo[k].who == app.convo@[k].who && app@.convo[k].agent
            == app.convo@[k].agent && app@.convo[k].text == app.convo@[k].text@,
{
}

/// A window takes every event of its own agents, and of anyone the events that need no session.
pub proof fn law_events_are_taken(v: ChatView, i: int, ev: EventView)
    ensures
        0 <= i < v.sessions.len() ==> v.takes(i, ev),
        ev is ModeChanged || ev is Compacted ==> v.takes(i, ev),
        ev is Restored && ev->role == "user"@ ==> v.takes(i, ev),
{
}

} // verus!
