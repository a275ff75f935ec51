//! One frame of the window: events in, clicks in, actions out.

use crate::chat::{law_agents_are_independent, only_session_differs, ChatApp, ChatView, Who};
use crate::colour::Rgba;
use crate::command::{command_arg, command_word, listed_name, COMMANDS};
use crate::protocol::{
    actions_view, lemma_actions_push, Action, ActionView, ChatEvent, ChatInput, EventView,
    InputView,
};
use crate::routing::{law_message_reaches_addressed, message_to};
use crate::session::{flat_item, fresh_session, ActivityItem, SessionView};
use crate::text::{begins_with, decimal, joined, lowercase, lowers_ascii, skip_chars, trim, trimmed};
use vstd::prelude::*;

verus! {

/// What the user did in one frame.
#[derive(Debug)]
pub struct Clicks {
    /// The input line of a completion that was clicked.
    pub pick: Option<String>,
    /// The position in [`COMMANDS`] of a command that was clicked.
    pub command: Option<usize>,
    /// Whether the input line was sent.
    pub send: bool,
    /// Permission decisions: the agent's position, and whether it may go on.
    pub decisions: Vec<(usize, bool)>,
}

/// [`Clicks`] as a mathematical value.
pub struct ClicksView {
    pub pick: Option<Seq<char>>,
    pub command: Option<int>,
    pub send: bool,
    pub decisions: Seq<(int, bool)>,
}

impl View for Clicks {
    type V = ClicksView;

    open spec fn view(&self) -> ClicksView {
        ClicksView {
            pick: match self.pick {
                Some(p) => Some(p@),
                None => None,
            },
            command: match self.command {
                Some(i) => Some(i as int),
                None => None,
            },
            send: self.send,
            decisions: self.decisions@.map_values(|d: (usize, bool)| (d.0 as int, d.1)),
        }
    }
}

/// The views of a list of events.
pub open spec fn events_view(v: Seq<ChatEvent>) -> Seq<EventView> {
    v.map_values(|e: ChatEvent| e@)
}

/// The views of the agents' lists of events.
pub open spec fn inboxes_view(v: Seq<Vec<ChatEvent>>) -> Seq<Seq<EventView>> {
    v.map_values(|evs: Vec<ChatEvent>| events_view(evs@))
}

/// What the activity panel says of a decision about `tool`.
pub open spec fn decision_line(allow: bool, tool: Seq<char>) -> Seq<char> {
    (if allow {
        "[allowed]"@
    } else {
        "[denied]"@
    }) + " "@ + tool
}

impl ChatView {
    /// The window after the events `evs` of agent `i`, in order.
    pub open spec fn applied_all(self, i: int, evs: Seq<EventView>) -> ChatView
        decreases evs.len(),
    {
        if evs.len() == 0 {
            self
        } else {
            self.applied_all(i, evs.drop_last()).applied(i, evs.last())
        }
    }

    /// Whether agent `i` can have each of the events `evs`.
    pub open spec fn takes_all(self, i: int, evs: Seq<EventView>) -> bool {
        forall|k: int| 0 <= k < evs.len() ==> self.takes(i, #[trigger] evs[k])
    }

    /// The window after every agent's events since the last frame: those of agent 0 in order, then
    /// those of agent 1, and so on.
    pub open spec fn drained(self, inboxes: Seq<Seq<EventView>>) -> ChatView
        decreases inboxes.len(),
    {
        if inboxes.len() == 0 {
            self
        } else {
            self.drained(inboxes.drop_last()).applied_all(inboxes.len() - 1, inboxes.last())
        }
    }

    /// The window and what it sends after a command line without its slash.
    pub open spec fn command_line(self, line: Seq<char>) -> (ChatView, Seq<ActionView>) {
        self.commanded(lowercase(command_word(line)), command_arg(line))
    }

    /// The window with an empty input line.
    pub open spec fn emptied(self) -> ChatView {
        ChatView { input: Seq::empty(), ..self }
    }

    /// Whether the input line is a command: it has a leading `/`.
    pub open spec fn is_command(self) -> bool {
        trimmed(self.input).len() > 0 && trimmed(self.input)[0] == '/'
    }

    /// The word of the input line that names a command, as typed.
    pub open spec fn typed_command(self) -> Seq<char> {
        command_word(trimmed(self.input).skip(1))
    }

    /// The window and what it sends after the input line has been sent: a line with a leading `/`
    /// is a command, any other a message.
    pub open spec fn submitted(self) -> (ChatView, Seq<ActionView>) {
        if self.is_command() {
            self.emptied().command_line(trimmed(self.input).skip(1))
        } else {
            self.sent()
        }
    }

    /// The window and what it sends after a decision about the request of agent `i`; nothing
    /// happens if the agent waits for none.
    pub open spec fn decided(self, i: int, allow: bool) -> (ChatView, Seq<ActionView>) {
        let s = self.sessions[i];
        match s.pending {
            Some(p) => (
                self.with_session(
                    i,
                    SessionView {
                        pending: None,
                        activity: s.activity.push(flat_item(decision_line(allow, p.tool))),
                        ..s
                    },
                ),
                seq![
                    ActionView::Send {
                        session: i,
                        input: InputView::Permission { id: p.id, allow },
                    },
                ],
            ),
            None => (self, Seq::empty()),
        }
    }

    /// The window and what it sends after decisions, in order.
    pub open spec fn decided_all(self, decisions: Seq<(int, bool)>) -> (ChatView, Seq<ActionView>)
        decreases decisions.len(),
    {
        if decisions.len() == 0 {
            (self, Seq::empty())
        } else {
            let (before, sent) = self.decided_all(decisions.drop_last());
            let (after, more) = before.decided(decisions.last().0, decisions.last().1);
            (after, sent + more)
        }
    }

    /// The window with the input line of a completion that was picked.
    pub open spec fn picked(self, pick: Option<Seq<char>>) -> ChatView {
        match pick {
            Some(line) => ChatView { input: line, ..self },
            None => self,
        }
    }

    /// The window and what it sends after the clicked command, if there is one, or else after the
    /// input line, if it was sent.
    pub open spec fn entered(self, command: Option<int>, send: bool) -> (ChatView, Seq<ActionView>) {
        match command {
            Some(i) => self.emptied().commanded(listed_name(i), Seq::empty()),
            None => if send {
                self.submitted()
            } else {
                (self, Seq::empty())
            },
        }
    }

    /// The window and what it sends after the clicks of one frame.
    pub open spec fn dispatched(self, clicks: ClicksView) -> (ChatView, Seq<ActionView>) {
        let (typed, sent) = self.picked(clicks.pick).entered(clicks.command, clicks.send);
        let (after, more) = typed.decided_all(clicks.decisions);
        (after, sent + more)
    }

    /// The clicks are on rows that the window shows.
    pub open spec fn accepts(self, clicks: ClicksView) -> bool {
        &&& clicks.command is Some ==> 0 <= clicks.command->0 < COMMANDS.len()
        &&& forall|k: int|
            0 <= k < clicks.decisions.len() ==> 0 <= (#[trigger] clicks.decisions[k]).0
                < self.sessions.len()
    }

    /// Decisions keep the window well formed.
    pub proof fn lemma_decided_wf(self, i: int, allow: bool)
        requires
            self.wf(),
            0 <= i < self.sessions.len(),
        ensures
            self.decided(i, allow).0.wf(),
            self.decided(i, allow).0.sessions.len() == self.sessions.len(),
    {
        let after = self.decided(i, allow).0;
        assert forall|k: int|
            0 <= k < after.convo.len() && (#[trigger] after.convo[k]).who == Who::Agent implies 0
            <= after.convo[k].agent < after.sessions.len() by {
            assert(self.convo[k].who == Who::Agent);
        }
        assert forall|s: int|
            0 <= s < after.sessions.len() && (
            #[trigger] after.sessions[s]).cur is Some implies after.is_line_of(
            after.sessions[s].cur->0,
            s,
        ) by {
            assert(self.sessions[s].cur is Some);
        }
    }
}

impl ChatApp {
    /// Apply the events of agent `idx` since the last frame.
    pub fn apply_all(&mut self, idx: usize, events: Vec<ChatEvent>)
        requires
            old(self).wf(),
            old(self)@.takes_all(idx as int, events_view(events@)),
        ensures
            final(self)@ == old(self)@.applied_all(idx as int, events_view(events@)),
            final(self).wf(),
            final(self).sessions.len() == old(self).sessions.len(),
    {
        let ghost before = self@;
        let ghost all = events_view(events@);
        for ev in it: events
            invariant
                self.wf(),
                self.sessions.len() == before.sessions.len(),
                all == events_view(it.seq()),
                before.takes_all(idx as int, all),
                self@ == before.applied_all(idx as int, all.take(it.index())),
        {
            proof {
                let next = all.take(it.index() + 1);
                assert(next.drop_last() =~= all.take(it.index()));
                assert(next.last() == ev@);
                assert(all[it.index()] == ev@);
            }
            self.apply(idx, ev);
        }
        assert(all.take(all.len() as int) =~= all);
    }

    /// Apply what every agent sent since the last frame: one list of events per agent.
    pub fn drain(&mut self, inboxes: Vec<Vec<ChatEvent>>)
        requires
            old(self).wf(),
            inboxes.len() <= old(self).sessions.len(),
        ensures
            final(self)@ == old(self)@.drained(inboxes_view(inboxes@)),
            final(self).wf(),
            final(self).sessions.len() == old(self).sessions.len(),
    {
        let ghost before = self@;
        let ghost all = inboxes_view(inboxes@);
        let mut idx: usize = 0;
        for inbox in it: inboxes
            invariant
                self.wf(),
                idx == it.index(),
                it.seq().len() <= self.sessions.len() == before.sessions.len(),
                all == inboxes_view(it.seq()),
                self@ == before.drained(all.take(it.index())),
        {
            proof {
                let next = all.take(it.index() + 1);
                assert(next.drop_last() =~= all.take(it.index()));
                assert(next.last() == events_view(inbox@));
            }
            self.apply_all(idx, inbox);
            idx += 1;
        }
        assert(all.take(all.len() as int) =~= all);
    }

    /// Send the input line: a leading `/` makes it a command for the window, not a message.
    pub fn submit(&mut self) -> (actions: Vec<Action>)
        requires
            old(self).wf(),
        ensures
            (final(self)@, actions_view(actions@)) == old(self)@.submitted(),
            old(self)@.is_command() ==> lowers_ascii(old(self)@.typed_command()),
            final(self).wf(),
            final(self).sessions.len() == old(self).sessions.len(),
    {
        let text = trim(self.input.as_str());
        if begins_with(text.as_str(), '/') {
            let line = skip_chars(text.as_str(), 1);
            self.input = String::new();
            assert(self@ =~= old(self)@.emptied());
            self.run_command(line.as_str())
        } else {
            self.send_user()
        }
    }

    /// Answer the request of agent `idx`, if it waits for an answer.
    pub fn decide(&mut self, idx: usize, allow: bool) -> (answer: Option<Action>)
        requires
            old(self).wf(),
            idx < old(self).sessions.len(),
        ensures
            final(self)@ == old(self)@.decided(idx as int, allow).0,
            old(self)@.decided(idx as int, allow).1 == match answer {
                Some(a) => seq![a@],
                None => Seq::empty(),
            },
            final(self).wf(),
            final(self).sessions.len() == old(self).sessions.len(),
    {
        let ghost before = self@;
        proof {
            before.lemma_decided_wf(idx as int, allow);
        }
        match self.sessions[idx].pending.take() {
            Some(p) => {
                let mut line = if allow {
                    "[allowed]".to_owned()
                } else {
                    "[denied]".to_owned()
                };
                line.append(" ");
                line.append(p.tool.as_str());
                self.log(idx, ActivityItem::line(line));
                assert(self@ =~= before.decided(idx as int, allow).0);
                Some(Action::Send { session: idx, input: ChatInput::Permission { id: p.id, allow } })
            },
            None => {
                assert(self@ =~= before);
                None
            },
        }
    }

    /// Do what the user's clicks of one frame ask for.
    pub fn dispatch(&mut self, clicks: Clicks) -> (actions: Vec<Action>)
        requires
            old(self).wf(),
            old(self)@.accepts(clicks@),
        ensures
            (final(self)@, actions_view(actions@)) == old(self)@.dispatched(clicks@),
            clicks@.command is None && clicks@.send && old(self)@.picked(clicks@.pick).is_command()
                ==> lowers_ascii(old(self)@.picked(clicks@.pick).typed_command()),
            final(self).wf(),
            final(self).sessions.len() == old(self).sessions.len(),
    {
        let ghost before = self@;
        let Clicks { pick, command, send, decisions } = clicks;
        if let Some(line) = pick {
            self.input = line;
        }
        assert(self@ =~= before.picked(clicks@.pick));
        let ghost picked = self@;
        assert(picked.wf());
        let mut actions: Vec<Action> = Vec::new();
        if let Some(i) = command {
            self.input = String::new();
            assert(self@ =~= picked.emptied());
            actions = self.run_listed(i);
        } else if send {
            actions = self.submit();
        } else {
            assert(actions_view(actions@) =~= Seq::<ActionView>::empty());
        }
        let ghost typed = self@;
        let ghost sent = actions_view(actions@);
        let ghost asked = clicks@.decisions;
        assert(sent + Seq::<ActionView>::empty() =~= sent);
        let mut k: usize = 0;
        while k < decisions.len()
            invariant
                k <= decisions.len(),
                self.wf(),
                self.sessions.len() == before.sessions.len(),
                asked == decisions@.map_values(|d: (usize, bool)| (d.0 as int, d.1)),
                forall|j: int|
                    0 <= j < asked.len() ==> 0 <= (#[trigger] asked[j]).0 < self.sessions.len(),
                self@ == typed.decided_all(asked.take(k as int)).0,
                actions_view(actions@) == sent + typed.decided_all(asked.take(k as int)).1,
            decreases decisions.len() - k,
        {
            let (idx, allow) = decisions[k];
            let ghost sofar = actions_view(actions@);
            proof {
                assert(asked[k as int] == (idx as int, allow));
                assert(asked.take(k + 1).drop_last() =~= asked.take(k as int));
            }
            let ghost now = self@;
            let answer = self.decide(idx, allow);
            let ghost more = now.decided(idx as int, allow).1;
            if let Some(a) = answer {
                proof {
                    lemma_actions_push(actions@, a);
                    assert(sofar.push(a@) =~= sofar + more);
                }
                actions.push(a);
            } else {
                assert(sofar =~= sofar + more);
            }
            assert(sent + (typed.decided_all(asked.take(k as int)).1 + more) =~= sofar + more);
            k += 1;
        }
        assert(asked.take(k as int) =~= asked);
        actions
    }

    /// How long to wait for the next frame, in milliseconds: the agents' events are polled a few
    /// times a second even without input.
    pub fn repaint_after(&self) -> (millis: u64)
        ensures
            millis == if self@.any_busy() {
                50u64
            } else {
                120u64
            },
    {
        if self.any_busy() {
            50
        } else {
            120
        }
    }
}

// ---------------------------------------------------------------------------
// Laws
// ---------------------------------------------------------------------------

/// The pieces of a reply as events.
pub open spec fn tokens(parts: Seq<Seq<char>>) -> Seq<EventView> {
    parts.map_values(|t: Seq<char>| EventView::Token { text: t })
}

/// A streamed reply is one line of the transcript that holds its pieces one after the other.
pub proof fn law_tokens_accumulate(v: ChatView, i: int, parts: Seq<Seq<char>>)
    requires
        v.wf(),
        0 <= i < v.sessions.len(),
        v.sessions[i].cur is None,
        parts.len() > 0,
    ensures
        v.applied_all(i, tokens(parts)) == v.open_reply(i, joined(parts, Seq::empty())),
    decreases parts.len(),
{
    let evs = tokens(parts);
    let init = parts.drop_last();
    let none = Seq::<char>::empty();
    assert(evs.drop_last() =~= tokens(init));
    assert(evs.last() == EventView::Token { text: parts.last() });
    if parts.len() == 1 {
        assert(evs.drop_last() =~= Seq::<EventView>::empty());
        assert(v.applied_all(i, evs.drop_last()) == v);
    } else {
        law_tokens_accumulate(v, i, init);
        let sofar = v.open_reply(i, joined(init, none));
        let whole = joined(init, none) + none + parts.last();
        assert(whole =~= joined(init, none) + parts.last());
        assert(sofar.applied(i, evs.last()).convo =~= v.open_reply(i, whole).convo);
    }
}

/// A typed line with a leading `/` never reaches an agent as a message of the user.
pub proof fn law_slash_is_no_message(v: ChatView, k: int)
    requires
        trimmed(v.input).len() > 0,
        trimmed(v.input)[0] == '/',
        0 <= k < v.submitted().1.len(),
    ensures
        v.submitted().1[k] is Send ==> !(v.submitted().1[k]->input is User),
{
}

/// A request is answered once: the first decision goes to the agent under the request's id and ends
/// the request, a second one does nothing.
pub proof fn law_request_is_answered_once(v: ChatView, i: int, first: bool, second: bool)
    requires
        0 <= i < v.sessions.len(),
        v.sessions[i].pending is Some,
    ensures
        v.decided(i, first).1 == seq![
            ActionView::Send {
                session: i,
                input: InputView::Permission { id: v.sessions[i].pending->0.id, allow: first },
            },
        ],
        v.decided(i, first).0.sessions[i].pending is None,
        v.decided(i, first).0.decided(i, second) == (
            v.decided(i, first).0,
            Seq::<ActionView>::empty(),
        ),
{
}

/// A session that is over stays over: no event, message, command or decision brings it back.
pub proof fn law_ended_session_stays_ended(
    v: ChatView,
    s: int,
    i: int,
    ev: EventView,
    name: Seq<char>,
    arg: Seq<char>,
    allow: bool,
)
    requires
        0 <= s < v.sessions.len(),
        0 <= i < v.sessions.len(),
        !v.sessions[s].alive,
    ensures
        !v.applied(i, ev).sessions[s].alive,
        !v.sent().0.sessions[s].alive,
        !v.commanded(name, arg).0.sessions[s].alive,
        !v.decided(i, allow).0.sessions[s].alive,
{
    v.lemma_with_tools_sessions(v.sessions.len() as int);
}

/// A decision about one agent changes nothing of another, nor of the transcript.
pub proof fn law_decision_is_local(v: ChatView, i: int, allow: bool, j: int)
    requires
        0 <= i < v.sessions.len(),
        0 <= j < v.sessions.len(),
        i != j,
    ensures
        v.decided(i, allow).0.sessions[j] == v.sessions[j],
        v.decided(i, allow).0.convo == v.convo,
{
}

/// The window after a stream of events, each with the position of its agent.
pub open spec fn streamed(v: ChatView, evs: Seq<(int, EventView)>) -> ChatView
    decreases evs.len(),
{
    if evs.len() == 0 {
        v
    } else {
        streamed(v, evs.drop_last()).applied(evs.last().0, evs.last().1)
    }
}

/// The pieces of agent `i`'s reply in a stream of events, one after the other.
pub open spec fn said_by(i: int, evs: Seq<(int, EventView)>) -> Seq<char>
    decreases evs.len(),
{
    if evs.len() == 0 {
        Seq::empty()
    } else if evs.last().0 == i && evs.last().1 is Token {
        said_by(i, evs.drop_last()) + evs.last().1->Token_text
    } else {
        said_by(i, evs.drop_last())
    }
}

/// Agents that answer at the same time do not mix: while agent `i` streams a reply, its line grows by
/// its own pieces and by nothing else, whatever events of other agents come in between.
pub proof fn law_replies_do_not_mix(v: ChatView, i: int, at: int, evs: Seq<(int, EventView)>)
    requires
        v.wf(),
        0 <= i < v.sessions.len(),
        v.sessions[i].cur == Some(at),
        forall|k: int| 0 <= k < evs.len() ==> v.takes((#[trigger] evs[k]).0, evs[k].1),
        forall|k: int| 0 <= k < evs.len() && (#[trigger] evs[k]).0 == i ==> evs[k].1 is Token,
    ensures
        streamed(v, evs).wf(),
        streamed(v, evs).sessions.len() == v.sessions.len(),
        streamed(v, evs).sessions[i].cur == Some(at),
        streamed(v, evs).convo[at].who == Who::Agent,
        streamed(v, evs).convo[at].agent == i,
        streamed(v, evs).convo[at].text == v.convo[at].text + said_by(i, evs),
    decreases evs.len(),
{
    assert(v.is_line_of(at, i));
    if evs.len() == 0 {
        assert(v.convo[at].text =~= v.convo[at].text + said_by(i, evs));
    } else {
        let init = evs.drop_last();
        let (j, ev) = evs.last();
        assert(evs[evs.len() - 1] == (j, ev));
        assert forall|k: int| 0 <= k < init.len() implies v.takes(
            (#[trigger] init[k]).0,
            init[k].1,
        ) by {
            assert(init[k] == evs[k]);
        }
        assert forall|k: int| 0 <= k < init.len() && (#[trigger] init[k]).0 == i implies
            init[k].1 is Token by {
            assert(init[k] == evs[k]);
        }
        law_replies_do_not_mix(v, i, at, init);
        let mid = streamed(v, init);
        mid.lemma_applied_wf(j, ev);
        assert(mid.is_line_of(at, i));
        if j == i {
            assert(v.convo[at].text + said_by(i, init) + ev->Token_text =~= v.convo[at].text
                + said_by(i, evs));
        } else {
            law_agents_are_independent(mid, j, ev, i, at);
        }
    }
}

/// The events `evs`, each with the position `i` of its agent.
pub open spec fn tagged(i: int, evs: Seq<EventView>) -> Seq<(int, EventView)> {
    Seq::new(evs.len(), |k: int| (i, evs[k]))
}

/// Every agent's events in one stream, agent after agent.
pub open spec fn queued(inboxes: Seq<Seq<EventView>>) -> Seq<(int, EventView)>
    decreases inboxes.len(),
{
    if inboxes.len() == 0 {
        Seq::empty()
    } else {
        queued(inboxes.drop_last()) + tagged(inboxes.len() - 1, inboxes.last())
    }
}

/// The events of agent `i` in a stream, in order.
pub open spec fn events_of(i: int, evs: Seq<(int, EventView)>) -> Seq<EventView>
    decreases evs.len(),
{
    if evs.len() == 0 {
        Seq::empty()
    } else if evs.last().0 == i {
        events_of(i, evs.drop_last()).push(evs.last().1)
    } else {
        events_of(i, evs.drop_last())
    }
}

proof fn lemma_stream_tagged(
    v: ChatView,
    before: Seq<(int, EventView)>,
    j: int,
    evs: Seq<EventView>,
    i: int,
)
    ensures
        streamed(v, before + tagged(j, evs)) == streamed(v, before).applied_all(j, evs),
        events_of(i, before + tagged(j, evs)) == events_of(i, before) + if i == j {
            evs
        } else {
            Seq::empty()
        },
    decreases evs.len(),
{
    let all = before + tagged(j, evs);
    if evs.len() == 0 {
        assert(all =~= before);
        assert(events_of(i, before) + evs =~= events_of(i, before));
    } else {
        let init = evs.drop_last();
        assert(all.drop_last() =~= before + tagged(j, init));
        assert(all.last() == (j, evs.last()));
        lemma_stream_tagged(v, before, j, init, i);
        assert(init.push(evs.last()) =~= evs);
        assert((events_of(i, before) + init).push(evs.last()) =~= events_of(i, before) + evs);
    }
}

proof fn lemma_applied_all(v: ChatView, i: int, evs: Seq<EventView>)
    requires
        v.wf(),
        v.takes_all(i, evs),
    ensures
        v.applied_all(i, evs).wf(),
        v.applied_all(i, evs).sessions.len() == v.sessions.len(),
        v.applied_all(i, evs).input == v.input,
    decreases evs.len(),
{
    if evs.len() > 0 {
        let init = evs.drop_last();
        assert forall|k: int| 0 <= k < init.len() implies v.takes(i, #[trigger] init[k]) by {
            assert(init[k] == evs[k]);
        }
        lemma_applied_all(v, i, init);
        assert(v.takes(i, evs[evs.len() - 1]));
        v.applied_all(i, init).lemma_applied_wf(i, evs.last());
    }
}

/// A frame drains every agent's inbox: the window is what all the waiting events make of it, agent
/// after agent, each agent's events once and in the order in which they came. What is being typed
/// stays as it is.
pub proof fn law_frame_drains_every_inbox(v: ChatView, inboxes: Seq<Seq<EventView>>, i: int)
    requires
        v.wf(),
        inboxes.len() <= v.sessions.len(),
        0 <= i,
    ensures
        v.drained(inboxes) == streamed(v, queued(inboxes)),
        events_of(i, queued(inboxes)) == if i < inboxes.len() {
            inboxes[i]
        } else {
            Seq::empty()
        },
        v.drained(inboxes).wf(),
        v.drained(inboxes).sessions.len() == v.sessions.len(),
        v.drained(inboxes).input == v.input,
    decreases inboxes.len(),
{
    if inboxes.len() > 0 {
        let init = inboxes.drop_last();
        let j = inboxes.len() - 1;
        law_frame_drains_every_inbox(v, init, i);
        lemma_stream_tagged(v, queued(init), j, inboxes.last(), i);
        lemma_applied_all(v.drained(init), j, inboxes.last());
        assert(Seq::<EventView>::empty() + inboxes.last() =~= inboxes.last());
        if i < j {
            assert(inboxes[i] + Seq::<EventView>::empty() =~= inboxes[i]);
        }
    }
}

/// The clicks of a user who does nothing.
pub open spec fn no_clicks() -> ClicksView {
    ClicksView { pick: None, command: None, send: false, decisions: Seq::empty() }
}

/// In a frame in which the user does nothing, nothing is sent to any agent, and the window is what the
/// events made of it.
pub proof fn law_idle_frame_is_silent(v: ChatView, inboxes: Seq<Seq<EventView>>)
    ensures
        v.drained(inboxes).dispatched(no_clicks()) == (
            v.drained(inboxes),
            Seq::<ActionView>::empty(),
        ),
{
    assert(Seq::<ActionView>::empty() + Seq::<ActionView>::empty() =~= Seq::empty());
}

/// The answer to the request of agent `i`.
pub open spec fn answer(v: ChatView, i: int, allow: bool) -> ActionView {
    ActionView::Send {
        session: i,
        input: InputView::Permission { id: v.sessions[i].pending->0.id, allow },
    }
}

/// Whether one of the decisions is about agent `i`.
pub open spec fn decides(decisions: Seq<(int, bool)>, i: int) -> bool {
    exists|j: int| 0 <= j < decisions.len() && (#[trigger] decisions[j]).0 == i
}

/// Whether action `a` hands the decision `d` to its agent, as the answer to the request that the agent
/// waits for.
pub open spec fn answers(v: ChatView, d: (int, bool), a: ActionView) -> bool {
    v.sessions[d.0].pending is Some && a == answer(v, d.0, d.1)
}

/// Whether an action answers a request.
pub open spec fn is_answer(a: ActionView) -> bool {
    a is Send && a->input is Permission
}

proof fn lemma_entered(v: ChatView, command: Option<int>, send: bool)
    ensures
        ({
            let (after, sent) = v.entered(command, send);
            &&& after.sessions.len() == v.sessions.len()
            &&& forall|i: int|
                0 <= i < v.sessions.len() ==> (#[trigger] after.sessions[i]).pending
                    == v.sessions[i].pending
            &&& forall|k: int| 0 <= k < sent.len() ==> !is_answer(#[trigger] sent[k])
        }),
{
    v.lemma_with_tools_sessions(v.sessions.len() as int);
    v.emptied().lemma_with_tools_sessions(v.sessions.len() as int);
    let (target, body) = v.target(trimmed(v.input));
    law_message_reaches_addressed(v.sessions, target, body, v.sessions.len() as int, 0);
}

proof fn lemma_decided_all(v: ChatView, decisions: Seq<(int, bool)>)
    requires
        forall|k: int|
            0 <= k < decisions.len() ==> 0 <= (#[trigger] decisions[k]).0 < v.sessions.len(),
    ensures
        ({
            let (after, sent) = v.decided_all(decisions);
            &&& after.sessions.len() == v.sessions.len()
            &&& forall|i: int|
                0 <= i < v.sessions.len() ==> (#[trigger] after.sessions[i]).pending is None
                    || after.sessions[i].pending == v.sessions[i].pending
            &&& forall|i: int|
                0 <= i < v.sessions.len() && !decides(decisions, i) ==> #[trigger] after.sessions[i]
                    == v.sessions[i]
            &&& forall|k: int|
                0 <= k < sent.len() ==> exists|j: int|
                    0 <= j < decisions.len() && answers(v, decisions[j], #[trigger] sent[k])
        }),
    decreases decisions.len(),
{
    if decisions.len() > 0 {
        let init = decisions.drop_last();
        assert forall|k: int| 0 <= k < init.len() implies 0 <= (#[trigger] init[k]).0
            < v.sessions.len() by {
            assert(init[k] == decisions[k]);
        }
        lemma_decided_all(v, init);
        let (before, sent) = v.decided_all(init);
        let last = decisions[decisions.len() - 1];
        let (after, more) = before.decided(last.0, last.1);
        let all = sent + more;
        assert forall|i: int|
            0 <= i < v.sessions.len() && !decides(decisions, i) implies #[trigger] after.sessions[i]
            == v.sessions[i] by {
            assert(!decides(init, i)) by {
                if decides(init, i) {
                    let j = choose|j: int| 0 <= j < init.len() && (#[trigger] init[j]).0 == i;
                    assert(decisions[j].0 == i);
                }
            }
            assert(before.sessions[i] == v.sessions[i]);
        }
        assert forall|k: int| 0 <= k < all.len() implies exists|j: int|
            0 <= j < decisions.len() && answers(v, decisions[j], #[trigger] all[k]) by {
            if k < sent.len() {
                let j = choose|j: int| 0 <= j < init.len() && answers(v, init[j], sent[k]);
                assert(answers(v, decisions[j], all[k]));
            } else {
                assert(before.sessions[last.0].pending == v.sessions[last.0].pending);
                assert(answers(v, decisions[decisions.len() - 1], all[k]));
            }
        }
    }
}

/// No request is answered without a click: each answer goes to an agent that waits for one, under its
/// request's id, and says what the user decided about that agent. The request of an agent that the
/// user did not decide about keeps waiting.
pub proof fn law_answers_are_clicked(v: ChatView, clicks: ClicksView, k: int, i: int)
    requires
        v.accepts(clicks),
        0 <= i < v.sessions.len(),
    ensures
        ({
            let (after, sent) = v.dispatched(clicks);
            &&& 0 <= k < sent.len() && is_answer(sent[k]) ==> exists|j: int|
                0 <= j < clicks.decisions.len() && answers(
                    v,
                    #[trigger] clicks.decisions[j],
                    sent[k],
                )
            &&& !decides(clicks.decisions, i) ==> after.sessions[i].pending
                == v.sessions[i].pending
        }),
{
    let picked = v.picked(clicks.pick);
    lemma_entered(picked, clicks.command, clicks.send);
    let (typed, sent) = picked.entered(clicks.command, clicks.send);
    lemma_decided_all(typed, clicks.decisions);
    let (after, more) = typed.decided_all(clicks.decisions);
    let all = sent + more;
    assert(typed.sessions[i].pending == v.sessions[i].pending);
    if !decides(clicks.decisions, i) {
        assert(after.sessions[i] == typed.sessions[i]);
    }
    if 0 <= k < all.len() && is_answer(all[k]) {
        if k < sent.len() {
            assert(!is_answer(sent[k]));
        }
        let m = k - sent.len();
        assert(all[k] == more[m]);
        let j = choose|j: int|
            0 <= j < clicks.decisions.len() && answers(typed, clicks.decisions[j], more[m]);
        let d = clicks.decisions[j];
        assert(typed.sessions[d.0].pending == v.sessions[d.0].pending);
        assert(answers(v, clicks.decisions[j], all[k]));
    }
}

/// Whether the status of a session starts with its model and its backend.
pub open spec fn names_model(s: SessionView) -> bool {
    (s.model + " · "@ + s.backend + " · "@).is_prefix_of(s.status)
}

proof fn lemma_status_text(model: Seq<char>, backend: Seq<char>, rest: Seq<char>, more: Seq<char>)
    requires
        rest.len() >= 3,
        rest.take(3) == " · "@,
    ensures
        (model + " · "@ + backend + " · "@).is_prefix_of(model + " · "@ + backend + rest + more),
        (model + " · "@ + backend + " · "@).is_prefix_of(model + " · "@ + backend + rest),
{
    reveal_strlit(" · ");
    let start = model + " · "@ + backend + " · "@;
    assert(rest[0] == rest.take(3)[0] && rest[1] == rest.take(3)[1] && rest[2] == rest.take(3)[2]);
    assert(start =~= (model + " · "@ + backend + rest + more).subrange(0, start.len() as int));
    assert(start =~= (model + " · "@ + backend + rest).subrange(0, start.len() as int));
}

proof fn lemma_statuses(s: SessionView)
    ensures
        names_model(SessionView { status: s.idle_status(), ..s }),
        names_model(SessionView { status: s.busy_status(), ..s }),
{
    reveal_strlit(" · ");
    reveal_strlit(" · connecting…");
    reveal_strlit(" · ready");
    reveal_strlit(" · ready · tokens ");
    reveal_strlit(" · busy");
    reveal_strlit(" · busy · tokens ");
    assert(" · connecting…"@.take(3) =~= " · "@);
    assert(" · ready"@.take(3) =~= " · "@);
    assert(" · ready · tokens "@.take(3) =~= " · "@);
    assert(" · busy"@.take(3) =~= " · "@);
    assert(" · busy · tokens "@.take(3) =~= " · "@);
    lemma_status_text(s.model, s.backend, " · connecting…"@, Seq::empty());
    lemma_status_text(s.model, s.backend, " · ready"@, Seq::empty());
    lemma_status_text(s.model, s.backend, " · busy"@, Seq::empty());
    if let Some((p, c)) = s.tokens {
        let more = decimal(p) + " in / "@ + decimal(c) + " out"@;
        let start = s.model + " · "@ + s.backend;
        let ready = start + " · ready · tokens "@;
        let busy = start + " · busy · tokens "@;
        lemma_status_text(s.model, s.backend, " · ready · tokens "@, more);
        lemma_status_text(s.model, s.backend, " · busy · tokens "@, more);
        assert(ready + decimal(p) + " in / "@ + decimal(c) + " out"@ =~= ready + more);
        assert(busy + decimal(p) + " in / "@ + decimal(c) + " out"@ =~= busy + more);
    }
}

/// Whether the status of a session is the one of an idle agent or, if the agent is busy, the one of a
/// busy agent.
pub open spec fn has_status(s: SessionView) -> bool {
    s.status == s.idle_status() || s.busy && s.status == s.busy_status()
}

/// The status of an agent starts with its model and its backend, and says that the agent is connecting,
/// ready or, only while it works on a reply, busy.
pub proof fn law_status_names_model(s: SessionView)
    requires
        has_status(s),
    ensures
        names_model(s),
{
    lemma_statuses(s);
}

/// An agent that has just been started has such a status.
pub proof fn law_fresh_session_has_status(
    id: Seq<char>,
    model: Seq<char>,
    backend: Seq<char>,
    color: Rgba,
)
    ensures
        has_status(fresh_session(id, model, backend, color)),
{
}

/// An agent keeps such a status, whatever event, message, command or decision comes.
pub proof fn law_status_is_kept(
    v: ChatView,
    s: int,
    i: int,
    ev: EventView,
    name: Seq<char>,
    arg: Seq<char>,
    allow: bool,
)
    requires
        0 <= s < v.sessions.len(),
        v.takes(i, ev),
        has_status(v.sessions[s]),
    ensures
        has_status(v.applied(i, ev).sessions[s]),
        has_status(v.sent().0.sessions[s]),
        has_status(v.commanded(name, arg).0.sessions[s]),
        0 <= i < v.sessions.len() ==> has_status(v.decided(i, allow).0.sessions[s]),
{
    v.lemma_with_tools_sessions(v.sessions.len() as int);
}

/// The status shows the tokens of the last turn while the agent works on the next, and an error in
/// place of a reply brings back the status from before the message.
pub proof fn law_tokens_stay_shown(v: ChatView, k: int, message: Seq<char>)
    requires
        v.wf(),
        0 <= k < v.sent().1.len(),
    ensures
        ({
            let i = v.sent().1[k]->session;
            let s = v.sessions[i];
            let after = v.sent().0.applied(i, EventView::Error { message }).sessions[i];
            &&& v.sent().0.sessions[i].tokens == s.tokens
            &&& v.sent().0.sessions[i].status == s.busy_status()
            &&& after.tokens == s.tokens
            &&& after.status == s.idle_status()
            &&& has_status(s) && !s.busy ==> after.status == s.status
        }),
{
    let i = v.sent().1[k]->session;
    let (target, body) = v.target(trimmed(v.input));
    law_message_reaches_addressed(v.sessions, target, body, v.sessions.len() as int, i);
    assert(v.sent().1[k] == message_to(i, body));
    assert(v.sent().1.contains(message_to(i, body)));
}

// ---------------------------------------------------------------------------
// What events and clicks do
// ---------------------------------------------------------------------------

/// Events are applied one by one in their order: those of two batches as those of one, and a single
/// one as alone.
pub proof fn law_events_in_order(
    v: ChatView,
    i: int,
    a: Seq<EventView>,
    b: Seq<EventView>,
    ev: EventView,
)
    ensures
        v.applied_all(i, Seq::empty()) == v,
        v.applied_all(i, seq![ev]) == v.applied(i, ev),
        v.applied_all(i, a + b) == v.applied_all(i, a).applied_all(i, b),
    decreases b.len(),
{
    assert(seq![ev].drop_last() =~= Seq::<EventView>::empty());
    assert(v.applied_all(i, seq![ev].drop_last()) == v);
    if b.len() == 0 {
        assert(a + b =~= a);
    } else {
        law_events_in_order(v, i, a, b.drop_last(), ev);
        assert((a + b).drop_last() =~= a + b.drop_last());
        assert((a + b).last() == b.last());
    }
}

/// A decision about an agent that waits for one is sent to that agent under the id of its request, as
/// it was made. The request is gone, and the activity has one more row that says whether the tool was
/// allowed. Nothing else changes. A decision about an agent that waits for none changes nothing.
pub proof fn law_decision(v: ChatView, i: int, allow: bool)
    requires
        0 <= i < v.sessions.len(),
    ensures
        ({
            let (w, sent) = v.decided(i, allow);
            let (s, t) = (v.sessions[i], w.sessions[i]);
            &&& s.pending is None ==> w == v && sent.len() == 0
            &&& s.pending is Some ==> ({
                &&& sent.len() == 1 && sent[0] is Send && sent[0]->session == i
                &&& sent[0]->input is Permission
                &&& sent[0]->input->id == s.pending->0.id && sent[0]->input->allow == allow
                &&& only_session_differs(v, w, i)
                &&& t.pending is None
                &&& t.activity.len() == s.activity.len() + 1
                &&& forall|k: int|
                    0 <= k < s.activity.len() ==> #[trigger] t.activity[k] == s.activity[k]
                &&& allow ==> t.activity.last().summary == "[allowed]"@ + " "@ + s.pending->0.tool
                &&& !allow ==> t.activity.last().summary == "[denied]"@ + " "@ + s.pending->0.tool
                &&& t.activity.last().body.len() == 0
                &&& t.id == s.id && t.color == s.color && t.model == s.model
                &&& t.backend == s.backend && t.status == s.status && t.ready == s.ready
                &&& t.tokens == s.tokens && t.tools == s.tools
                &&& t.busy == s.busy && t.alive == s.alive && t.cur == s.cur
            })
        }),
{
}

/// Decisions count one by one in their order: those of two lists as those of one, and a single one as
/// alone.
pub proof fn law_decisions_in_order(
    v: ChatView,
    a: Seq<(int, bool)>,
    b: Seq<(int, bool)>,
    d: (int, bool),
)
    ensures
        v.decided_all(Seq::empty()) == (v, Seq::<ActionView>::empty()),
        v.decided_all(seq![d]) == v.decided(d.0, d.1),
        v.decided_all(a + b).0 == v.decided_all(a).0.decided_all(b).0,
        v.decided_all(a + b).1 == v.decided_all(a).1 + v.decided_all(a).0.decided_all(b).1,
    decreases b.len(),
{
    let none = Seq::<ActionView>::empty();
    assert(seq![d].drop_last() =~= Seq::<(int, bool)>::empty());
    assert(v.decided_all(seq![d].drop_last()) == (v, none));
    assert(none + v.decided(d.0, d.1).1 =~= v.decided(d.0, d.1).1);
    let mid = v.decided_all(a);
    if b.len() == 0 {
        assert(a + b =~= a);
        assert(mid.1 + none =~= mid.1);
    } else {
        let init = b.drop_last();
        law_decisions_in_order(v, a, init, d);
        assert((a + b).drop_last() =~= a + init);
        assert((a + b).last() == b.last());
        let (before, sent) = mid.0.decided_all(init);
        let more = before.decided(b.last().0, b.last().1).1;
        assert(mid.1 + sent + more =~= mid.1 + (sent + more));
    }
}

proof fn lemma_first_decision(v: ChatView, decisions: Seq<(int, bool)>, j: int)
    requires
        0 <= j < decisions.len(),
        forall|k: int|
            0 <= k < decisions.len() ==> 0 <= (#[trigger] decisions[k]).0 < v.sessions.len(),
        forall|k: int| 0 <= k < j ==> (#[trigger] decisions[k]).0 != decisions[j].0,
        v.sessions[decisions[j].0].pending is Some,
    ensures
        ({
            let (i, allow) = decisions[j];
            let (after, sent) = v.decided_all(decisions);
            &&& sent.contains(answer(v, i, allow))
            &&& after.sessions[i] == v.decided(i, allow).0.sessions[i]
            &&& forall|k: int|
                0 <= k < sent.len() && is_answer(#[trigger] sent[k]) && sent[k]->session == i
                    ==> sent[k] == answer(v, i, allow)
        }),
    decreases decisions.len(),
{
    let (i, allow) = decisions[j];
    let init = decisions.drop_last();
    assert forall|k: int| 0 <= k < init.len() implies 0 <= (#[trigger] init[k]).0
        < v.sessions.len() by {
        assert(init[k] == decisions[k]);
    }
    lemma_decided_all(v, init);
    let (before, sent) = v.decided_all(init);
    let last = decisions[decisions.len() - 1];
    let more = before.decided(last.0, last.1).1;
    let all = sent + more;
    if j == decisions.len() - 1 {
        assert(!decides(init, i)) by {
            if decides(init, i) {
                let k = choose|k: int| 0 <= k < init.len() && (#[trigger] init[k]).0 == i;
                assert(decisions[k].0 == i);
            }
        }
        assert(before.sessions[i] == v.sessions[i]);
        assert(all[sent.len() as int] == answer(v, i, allow));
        assert forall|k: int|
            0 <= k < all.len() && is_answer(#[trigger] all[k]) && all[k]->session
                == i implies all[k] == answer(v, i, allow) by {
            if k < sent.len() {
                let m = choose|m: int| 0 <= m < init.len() && answers(v, init[m], sent[k]);
                assert(init[m].0 == i);
                assert(decides(init, i));
            }
        }
    } else {
        assert forall|k: int| 0 <= k < j implies (#[trigger] init[k]).0 != init[j].0 by {
            assert(init[k] == decisions[k]);
        }
        lemma_first_decision(v, init, j);
        let k = choose|k: int| 0 <= k < sent.len() && sent[k] == answer(v, i, allow);
        assert(all[k] == answer(v, i, allow));
        assert(before.sessions[i].pending is None);
        assert forall|k: int|
            0 <= k < all.len() && is_answer(#[trigger] all[k]) && all[k]->session
                == i implies all[k] == answer(v, i, allow) by {
            if k < sent.len() {
                assert(is_answer(sent[k]));
            }
        }
    }
}

/// Every request that the user decided about in a frame is answered, allowed or denied alike. The first
/// decision about the agent counts: it is sent to the agent under the id of its request, no other
/// answer is sent to that agent, the request waits no longer, and the last row of the agent's activity
/// says what was decided.
pub proof fn law_clicked_requests_are_answered(v: ChatView, clicks: ClicksView, j: int)
    requires
        v.accepts(clicks),
        0 <= j < clicks.decisions.len(),
        forall|k: int|
            0 <= k < j ==> (#[trigger] clicks.decisions[k]).0 != clicks.decisions[j].0,
        v.sessions[clicks.decisions[j].0].pending is Some,
    ensures
        ({
            let (i, allow) = clicks.decisions[j];
            let request = v.sessions[i].pending->0;
            let (w, sent) = v.dispatched(clicks);
            let row = w.sessions[i].activity.last();
            &&& sent.contains(
                ActionView::Send {
                    session: i,
                    input: InputView::Permission { id: request.id, allow },
                },
            )
            &&& forall|k: int|
                0 <= k < sent.len() && (#[trigger] sent[k]) is Send && sent[k]->session == i
                    && sent[k]->input is Permission ==> sent[k]->input->id == request.id
                    && sent[k]->input->allow == allow
            &&& w.sessions[i].pending is None
            &&& w.sessions[i].activity.len() > 0
            &&& allow ==> row.summary == "[allowed]"@ + " "@ + request.tool
            &&& !allow ==> row.summary == "[denied]"@ + " "@ + request.tool
        }),
{
    let (i, allow) = clicks.decisions[j];
    let picked = v.picked(clicks.pick);
    lemma_entered(picked, clicks.command, clicks.send);
    let (typed, sent) = picked.entered(clicks.command, clicks.send);
    assert(typed.sessions[i].pending == v.sessions[i].pending);
    lemma_first_decision(typed, clicks.decisions, j);
    let (after, more) = typed.decided_all(clicks.decisions);
    let all = sent + more;
    let a = answer(typed, i, allow);
    let m = choose|m: int| 0 <= m < more.len() && more[m] == a;
    assert(all[sent.len() + m] == a);
    assert forall|k: int|
        0 <= k < all.len() && (#[trigger] all[k]) is Send && all[k]->session == i
            && all[k]->input is Permission implies all[k] == a by {
        if k < sent.len() {
            assert(!is_answer(sent[k]));
        } else {
            assert(all[k] == more[k - sent.len()]);
            assert(is_answer(more[k - sent.len()]));
        }
    }
}

/// A line behind a `/` is run as a command in a window with an empty input line; its name counts in
/// lower case. Any other line is sent as a message.
pub proof fn law_submit(v: ChatView, line: Seq<char>)
    ensures
        trimmed(v.input) == seq!['/'] + line ==> v.submitted() == (ChatView {
            input: Seq::empty(),
            ..v
        }).commanded(lowercase(command_word(line)), command_arg(line)),
        trimmed(v.input).len() == 0 || trimmed(v.input)[0] != '/' ==> v.submitted() == v.sent(),
{
    assert((seq!['/'] + line).skip(1) =~= line);
}

/// What each kind of click does alone. A picked completion becomes the input line. A clicked command
/// runs without an argument in a window with an empty input line, whether or not a line was sent too.
/// Sending submits the input line. A decision goes to its agent. No click does nothing.
pub proof fn law_single_clicks(v: ChatView, line: Seq<char>, i: int, send: bool, d: (int, bool))
    ensures
        v.dispatched(ClicksView { pick: Some(line), ..no_clicks() }) == (
            ChatView { input: line, ..v },
            Seq::<ActionView>::empty(),
        ),
        v.dispatched(ClicksView { command: Some(i), send, ..no_clicks() }) == (ChatView {
            input: Seq::empty(),
            ..v
        }).commanded(COMMANDS[i].0@.skip(1), Seq::empty()),
        v.dispatched(ClicksView { send: true, ..no_clicks() }) == v.submitted(),
        v.dispatched(ClicksView { decisions: seq![d], ..no_clicks() }) == v.decided(d.0, d.1),
        v.dispatched(no_clicks()) == (v, Seq::<ActionView>::empty()),
{
    let none = Seq::<ActionView>::empty();
    law_decisions_in_order(v, Seq::empty(), Seq::empty(), d);
    assert(none + none =~= none);
    assert(none + v.decided(d.0, d.1).1 =~= v.decided(d.0, d.1).1);
    let run = (ChatView { input: Seq::empty(), ..v }).commanded(COMMANDS[i].0@.skip(1), Seq::empty());
    assert(run.1 + none =~= run.1);
    assert(v.submitted().1 + none =~= v.submitted().1);
}

/// The clicks of one frame count in a fixed order: first the picked completion, then the clicked
/// command or the sent line, then the decisions, each as if it were alone.
pub proof fn law_clicks_in_order(v: ChatView, clicks: ClicksView)
    ensures
        ({
            let ClicksView { pick, command, send, decisions } = clicks;
            let (a, sent_a) = v.dispatched(ClicksView { pick, ..no_clicks() });
            let (b, sent_b) = a.dispatched(ClicksView { command, send, ..no_clicks() });
            let (c, sent_c) = b.dispatched(ClicksView { decisions, ..no_clicks() });
            v.dispatched(clicks) == (c, sent_a + sent_b + sent_c)
        }),
{
    let none = Seq::<ActionView>::empty();
    assert(none + none =~= none);
    let ClicksView { pick, command, send, decisions } = clicks;
    let (a, sent_a) = v.dispatched(ClicksView { pick, ..no_clicks() });
    assert(a == v.picked(pick));
    let (b, sent_b) = a.entered(command, send);
    let more = b.decided_all(decisions).1;
    assert(sent_b + none =~= sent_b);
    assert(none + more =~= more);
    assert(none + sent_b + more =~= sent_b + more);
    assert(b.picked(None) == b);
}

/// Clicks mean what their fields hold, and a window accepts all clicks on rows that it shows.
pub proof fn law_clicks_mean_their_fields(v: ChatView, c: Clicks, k: int)
    ensures
        c@.pick is Some <==> c.pick is Some,
        c.pick is Some ==> c@.pick->0 == c.pick->0@,
        c@.command is Some <==> c.command is Some,
        c.command is Some ==> c@.command->0 == c.command->0,
        c@.send == c.send,
        c@.decisions.len() == c.decisions@.len(),
        0 <= k < c.decisions@.len() ==> c@.decisions[k].0 == c.decisions@[k].0
            && c@.decisions[k].1 == c.decisions@[k].1,
        (c.command is Some ==> c.command->0 < 6) && (forall|j: int|
            0 <= j < c.decisions@.len() ==> (#[trigger] c.decisions@[j]).0 < v.sessions.len())
            ==> v.accepts(c@),
{
}

/// The waiting events are those of each agent's list, in order.
pub proof fn law_inboxes_mean_their_events(inboxes: Seq<Vec<ChatEvent>>, i: int, k: int)
    requires
        0 <= i < inboxes.len(),
    ensures
        inboxes_view(inboxes).len() == inboxes.len(),
        inboxes_view(inboxes)[i].len() == inboxes[i]@.len(),
        0 <= k < inboxes[i]@.len() ==> inboxes_view(inboxes)[i][k] == inboxes[i]@[k]@,
{
}

} // verus!
