//! Where a typed message goes.

use crate::chat::{ChatApp, ChatView, MsgView, Who};
use crate::label::{short, short_name};
use crate::protocol::{actions_view, Action, ActionView, ChatInput, InputView};
use crate::session::SessionView;
use crate::complete::agent_row;
use crate::text::{
    after_word, begins_with, eq_ignore_ascii_case, first_word, is_blank, is_space, is_word,
    law_split_at_first_space, law_trim, lemma_trim_end_after, lemma_trimmed_ignores_end,
    lemma_word_end_at, same_ignoring_case, skip_chars, split_word, trim, trim_end, trim_start, trimmed,
};
use vstd::prelude::*;

verus! {

/// The first agent from position `from` on whose short name is `name`, up to ASCII case.
pub open spec fn agent_named(sessions: Seq<SessionView>, name: Seq<char>, from: int) -> Option<int>
    decreases sessions.len() - from,
{
    if from < 0 || from >= sessions.len() {
        None
    } else if same_ignoring_case(short_name(sessions[from].id), name) {
        Some(from)
    } else {
        agent_named(sessions, name, from + 1)
    }
}

/// Whether a message to `target` (to all, if there is none) goes to the session `s` at `i`.
pub open spec fn is_addressed(s: SessionView, i: int, target: Option<int>) -> bool {
    s.alive && (target is Some ==> target->0 == i)
}

/// The message `body` to each addressed agent among the first `n`.
pub open spec fn messages(
    sessions: Seq<SessionView>,
    target: Option<int>,
    body: Seq<char>,
    n: int,
) -> Seq<ActionView>
    decreases n,
{
    if n <= 0 {
        Seq::empty()
    } else {
        let before = messages(sessions, target, body, n - 1);
        if is_addressed(sessions[n - 1], n - 1, target) {
            before.push(
                ActionView::Send { session: n - 1, input: InputView::User { text: body } },
            )
        } else {
            before
        }
    }
}

/// A session that is busy with a new reply, and says so.
pub open spec fn started(s: SessionView) -> SessionView {
    SessionView { busy: true, cur: None, status: s.busy_status(), ..s }
}

/// The sessions after a message to `target`: each addressed agent is busy with a new reply.
pub open spec fn awaiting(sessions: Seq<SessionView>, target: Option<int>) -> Seq<SessionView> {
    Seq::new(
        sessions.len(),
        |i: int|
            if is_addressed(sessions[i], i, target) {
                started(sessions[i])
            } else {
                sessions[i]
            },
    )
}

impl ChatView {
    /// The agent that `raw` addresses by a leading `@name`, and the message without it; the whole
    /// of `raw` to all agents, if it addresses none.
    pub open spec fn target(self, raw: Seq<char>) -> (Option<int>, Seq<char>) {
        if raw.len() > 0 && raw[0] == '@' {
            let rest = raw.skip(1);
            match agent_named(self.sessions, first_word(rest), 0) {
                Some(i) => (Some(i), trimmed(after_word(rest))),
                None => (None, raw),
            }
        } else {
            (None, raw)
        }
    }

    /// The window and what it sends after the input line has been sent as a message.
    pub open spec fn sent(self) -> (ChatView, Seq<ActionView>) {
        let raw = trimmed(self.input);
        if raw.len() == 0 || !self.any_alive() {
            (self, Seq::empty())
        } else {
            let emptied = ChatView { input: Seq::empty(), ..self };
            let (target, body) = self.target(raw);
            if body.len() == 0 {
                (emptied.say("(empty message — nothing sent)"@), Seq::empty())
            } else {
                let shown = emptied.with_msg(Who::User, 0, raw);
                (
                    ChatView { sessions: awaiting(self.sessions, target), ..shown },
                    messages(self.sessions, target, body, self.sessions.len() as int),
                )
            }
        }
    }

    /// Messages keep the window well formed.
    pub proof fn lemma_sent_wf(self)
        requires
            self.wf(),
        ensures
            self.sent().0.wf(),
    {
        let after = self.sent().0;
        assert forall|k: int|
            0 <= k < after.convo.len() && (#[trigger] after.convo[k]).who == Who::Agent implies 0
            <= after.convo[k].agent < after.sessions.len() by {
            assert(self.convo[k].who == Who::Agent);
        }
        assert forall|s: int|
            0 <= s < after.sessions.len() && (
            #[trigger] after.sessions[s]).cur is Some implies after.is_line_of(
            after.sessions[s].cur->0,
            s,
        ) by {
            assert(self.sessions[s].cur is Some);
        }
    }
}

impl ChatApp {
    /// Split a leading `@name` off the message. Returns the agent's position and the rest when
    /// `name` matches an agent's short name, else nothing and the whole message.
    pub fn parse_target(&self, raw: &str) -> (out: (Option<usize>, String))
        ensures
            out.0 is Some <==> self@.target(raw@).0 is Some,
            out.0 is Some ==> out.0->0 == self@.target(raw@).0->0,
            out.0 is Some ==> out.0->0 < self.sessions.len(),
            out.1@ == self@.target(raw@).1,
    {
        if begins_with(raw, '@') {
            let rest = skip_chars(raw, 1);
            let (name, body) = split_word(rest.as_str());
            let ghost found = agent_named(self@.sessions, name@, 0);
            let mut i: usize = 0;
            while i < self.sessions.len()
                invariant
                    i <= self.sessions.len(),
                    found == agent_named(self@.sessions, name@, i as int),
                    name@ == first_word(raw@.skip(1)),
                    body@ == after_word(raw@.skip(1)),
                    raw@.len() > 0 && raw@[0] == '@',
                    found == agent_named(self@.sessions, name@, 0),
                decreases self.sessions.len() - i,
            {
                if eq_ignore_ascii_case(short(self.sessions[i].id.as_str()), name.as_str()) {
                    return (Some(i), trim(body.as_str()));
                }
                i += 1;
            }
        }
        (None, raw.to_owned())
    }

    /// Route the typed text. A bare message goes to every alive agent; a leading `@name` targets
    /// just that one. The transcript shows the text as typed; the `@name` is not sent.
    pub fn send_user(&mut self) -> (actions: Vec<Action>)
        requires
            old(self).wf(),
        ensures
            (final(self)@, actions_view(actions@)) == old(self)@.sent(),
            final(self).wf(),
            final(self).sessions.len() == old(self).sessions.len(),
    {
        let ghost before = self@;
        let mut actions: Vec<Action> = Vec::new();
        assert(actions_view(actions@) =~= Seq::<ActionView>::empty());
        let raw = trim(self.input.as_str());
        if raw.as_str().is_empty() || !self.any_alive() {
            return actions;
        }
        self.input = String::new();
        let (target, body) = self.parse_target(raw.as_str());
        proof {
            assert(self@.sessions == before.sessions);
            assert(self@.target(raw@) == before.target(raw@));
            before.lemma_sent_wf();
        }
        if body.as_str().is_empty() {
            self.push_msg(Who::System, 0, "(empty message — nothing sent)".to_owned());
            return actions;
        }
        self.push_msg(Who::User, 0, raw);
        let ghost to = before.target(trimmed(before.input)).0;
        let ghost sessions = before.sessions;
        let mut i: usize = 0;
        while i < self.sessions.len()
            invariant
                i <= self.sessions.len() == sessions.len(),
                sessions == before.sessions,
                to is Some <==> target is Some,
                to is Some ==> to->0 == target->0,
                actions_view(actions@) == messages(sessions, to, body@, i as int),
                forall|j: int|
                    0 <= j < sessions.len() ==> #[trigger] self@.sessions[j] == if j < i {
                        awaiting(sessions, to)[j]
                    } else {
                        sessions[j]
                    },
                self@.convo == before.convo.push(
                    MsgView {
                        who: Who::User,
                        agent: 0,
                        text: trimmed(before.input),
                    },
                ),
                self@.mode == before.mode,
                self@.input == Seq::<char>::empty(),
            decreases self.sessions.len() - i,
        {
            let ghost now = self@;
            assert(self@.sessions[i as int] == sessions[i as int]);
            let chosen = match target {
                Some(t) => t == i,
                None => true,
            };
            if self.sessions[i].alive && chosen {
                self.sessions[i].busy = true;
                self.sessions[i].cur = None;
                self.sessions[i].status = self.sessions[i].busy_status();
                assert(self@.sessions =~= now.sessions.update(
                    i as int,
                    started(now.sessions[i as int]),
                ));
                actions.push(
                    Action::Send { session: i, input: ChatInput::User { text: body.clone() } },
                );
                assert(actions_view(actions@) =~= messages(sessions, to, body@, i + 1));
            }
            i += 1;
        }
        assert(self@.sessions =~= awaiting(sessions, to));
        assert(self@ =~= before.sent().0);
        actions
    }
}

// ---------------------------------------------------------------------------
// Laws
// ---------------------------------------------------------------------------

/// The message that goes to the agent at `i`.
pub open spec fn message_to(i: int, body: Seq<char>) -> ActionView {
    ActionView::Send { session: i, input: InputView::User { text: body } }
}

/// A message is sent to an agent exactly if the agent is alive and addressed: all of them without a
/// target, one of them with a target. None gets it twice.
pub proof fn law_message_reaches_addressed(
    sessions: Seq<SessionView>,
    target: Option<int>,
    body: Seq<char>,
    n: int,
    i: int,
)
    requires
        0 <= n <= sessions.len(),
    ensures
        ({
            let out = messages(sessions, target, body, n);
            &&& out.contains(message_to(i, body)) <==> 0 <= i < n && sessions[i].alive && (target
                is None || target == Some(i))
            &&& forall|k: int|
                0 <= k < out.len() ==> (#[trigger] out[k]) == message_to(out[k]->session, body)
                    && 0 <= out[k]->session < n
            &&& forall|k: int, l: int|
                0 <= k < l < out.len() ==> (#[trigger] out[k])->session < (
                #[trigger] out[l])->session
        }),
    decreases n,
{
    let out = messages(sessions, target, body, n);
    let m = message_to(i, body);
    if n > 0 {
        law_message_reaches_addressed(sessions, target, body, n - 1, i);
        let before = messages(sessions, target, body, n - 1);
        if is_addressed(sessions[n - 1], n - 1, target) {
            assert(out == before.push(message_to(n - 1, body)));
            if before.contains(m) {
                let k = choose|k: int| 0 <= k < before.len() && before[k] == m;
                assert(out[k] == m);
            }
            if out.contains(m) && !before.contains(m) {
                let k = choose|k: int| 0 <= k < out.len() && out[k] == m;
                if k < before.len() {
                    assert(before[k] == m);
                }
                assert(k == before.len());
            }
            if i == n - 1 {
                assert(out[before.len() as int] == m);
            }
        }
    }
}

/// A window without a session alive sends nothing and keeps what was typed.
pub proof fn law_ended_window_is_silent(v: ChatView)
    requires
        !v.any_alive(),
    ensures
        v.sent() == (v, Seq::<ActionView>::empty()),
{
}

/// What is sent is shown as it was typed, and the reply of every addressed agent is a new line. The
/// status of such an agent says that it is busy.
pub proof fn law_sent_text_is_shown(v: ChatView)
    requires
        v.wf(),
        v.sent().1.len() > 0,
    ensures
        v.sent().0.convo == v.convo.push(
            MsgView { who: Who::User, agent: 0, text: trimmed(v.input) },
        ),
        v.sent().0.input.len() == 0,
        forall|k: int|
            0 <= k < v.sent().1.len() ==> {
                let s = v.sent().0.sessions[(#[trigger] v.sent().1[k])->session];
                s.busy && s.cur is None && s.status == s.busy_status()
            },
{
    let (target, body) = v.target(trimmed(v.input));
    let n = v.sessions.len() as int;
    assert forall|k: int| 0 <= k < v.sent().1.len() implies {
        let s = v.sent().0.sessions[(#[trigger] v.sent().1[k])->session];
        s.busy && s.cur is None && s.status == s.busy_status()
    } by {
        let i = v.sent().1[k]->session;
        law_message_reaches_addressed(v.sessions, target, body, n, i);
        assert(v.sent().1[k] == message_to(i, body));
        assert(v.sent().1.contains(message_to(i, body)));
    }
}

/// A message without a mention goes, as it was typed, to every agent that is alive.
pub proof fn law_bare_message_goes_to_all(v: ChatView, i: int)
    requires
        0 <= i < v.sessions.len(),
        trimmed(v.input).len() > 0,
        trimmed(v.input)[0] != '@',
    ensures
        v.sent().1.contains(message_to(i, trimmed(v.input))) <==> v.sessions[i].alive,
{
    let raw = trimmed(v.input);
    law_message_reaches_addressed(v.sessions, None, raw, v.sessions.len() as int, i);
    assert(v.sessions[i].alive ==> v.any_alive());
}

/// A message with a mention goes to the agent that it mentions and to no other.
pub proof fn law_mention_goes_to_one(v: ChatView, t: int, k: int)
    requires
        v.target(trimmed(v.input)).0 == Some(t),
        0 <= k < v.sent().1.len(),
    ensures
        v.sent().1[k] == message_to(t, v.target(trimmed(v.input)).1),
{
    let (target, body) = v.target(trimmed(v.input));
    let i = v.sent().1[k]->session;
    law_message_reaches_addressed(v.sessions, target, body, v.sessions.len() as int, i);
    assert(v.sent().1[k] == message_to(i, body));
    assert(v.sent().1.contains(message_to(i, body)));
}

proof fn lemma_agent_named(sessions: Seq<SessionView>, name: Seq<char>, from: int, i: int)
    requires
        0 <= from <= i < sessions.len(),
        same_ignoring_case(short_name(sessions[i].id), name),
        forall|j: int|
            from <= j < i ==> !same_ignoring_case(
                short_name((#[trigger] sessions[j]).id),
                name,
            ),
    ensures
        agent_named(sessions, name, from) == Some(i),
    decreases i - from,
{
    if from < i {
        assert(!same_ignoring_case(short_name(sessions[from].id), name));
        lemma_agent_named(sessions, name, from + 1, i);
    }
}

/// The completion of an agent's name addresses that agent: after it has been picked and a message
/// typed behind it, the message, without the mention, goes to that agent alone. The name must have
/// no white space in it, and no agent before it the same name.
pub proof fn law_completion_addresses_agent(v: ChatView, i: int, body: Seq<char>)
    requires
        0 <= i < v.sessions.len(),
        forall|k: int|
            0 <= k < short_name(v.sessions[i].id).len() ==> !is_space(
                #[trigger] short_name(v.sessions[i].id)[k],
            ),
        forall|j: int|
            0 <= j < i ==> !same_ignoring_case(
                short_name((#[trigger] v.sessions[j]).id),
                short_name(v.sessions[i].id),
            ),
        trim_end(body).len() > 0,
    ensures
        v.target(trimmed(agent_row(short_name(v.sessions[i].id)).insert + body)) == (
            Some(i),
            trimmed(body),
        ),
{
    reveal_strlit("@");
    reveal_strlit(" ");
    let name = short_name(v.sessions[i].id);
    let insert = agent_row(name).insert;
    let line = insert + body;
    assert(line[0] == '@');
    assert(trim_start(line) == line);
    lemma_trim_end_after(insert, body);
    let raw = trimmed(line);
    assert(raw == insert + trim_end(body));
    let rest = raw.skip(1);
    assert(rest =~= name + " "@ + trim_end(body));
    let n = name.len() as int;
    assert forall|k: int| 0 <= k < n implies !is_space(#[trigger] rest[k]) by {
        assert(rest[k] == name[k]);
    }
    assert(rest[n] == ' ');
    lemma_word_end_at(rest, n);
    assert(first_word(rest) =~= name);
    assert(after_word(rest) =~= trim_end(body));
    lemma_agent_named(v.sessions, name, 0, i);
    lemma_trimmed_ignores_end(body);
}

/// A line with a mention is read as the agent and the message: the agent is the first whose short name
/// is the word behind the `@`, up to ASCII case, and the message is what follows the white space
/// behind the word. A mention of nobody, and a line without one, is a message to all as it stands.
pub proof fn law_mention_is_read(
    v: ChatView,
    name: Seq<char>,
    gap: char,
    rest: Seq<char>,
    raw: Seq<char>,
    t: int,
)
    requires
        is_word(name),
        is_space(gap),
    ensures
        0 <= t < v.sessions.len() && same_ignoring_case(short_name(v.sessions[t].id), name) && (
        forall|j: int|
            0 <= j < t ==> !same_ignoring_case(short_name((#[trigger] v.sessions[j]).id), name))
            ==> v.target(seq!['@'] + (name + seq![gap] + rest)) == (Some(t), trimmed(rest))
            && v.target(seq!['@'] + name) == (Some(t), Seq::<char>::empty()),
        (forall|j: int|
            0 <= j < v.sessions.len() ==> !same_ignoring_case(
                short_name((#[trigger] v.sessions[j]).id),
                name,
            )) ==> v.target(seq!['@'] + (name + seq![gap] + rest)) == (
            None::<int>,
            seq!['@'] + (name + seq![gap] + rest),
        ) && v.target(seq!['@'] + name) == (None::<int>, seq!['@'] + name),
        raw.len() == 0 || raw[0] != '@' ==> v.target(raw) == (None::<int>, raw),
{
    let long = name + seq![gap] + rest;
    law_split_at_first_space(name, gap, rest);
    assert((seq!['@'] + long).skip(1) =~= long);
    assert((seq!['@'] + name).skip(1) =~= name);
    if 0 <= t < v.sessions.len() && same_ignoring_case(short_name(v.sessions[t].id), name) && (
    forall|j: int|
        0 <= j < t ==> !same_ignoring_case(short_name((#[trigger] v.sessions[j]).id), name)) {
        lemma_agent_named(v.sessions, name, 0, t);
        assert(trimmed(Seq::<char>::empty()) =~= Seq::<char>::empty());
    }
    if forall|j: int|
        0 <= j < v.sessions.len() ==> !same_ignoring_case(
            short_name((#[trigger] v.sessions[j]).id),
            name,
        ) {
        lemma_nobody_named(v.sessions, name, 0);
    }
}

proof fn lemma_nobody_named(sessions: Seq<SessionView>, name: Seq<char>, from: int)
    requires
        0 <= from,
        forall|j: int|
            from <= j < sessions.len() ==> !same_ignoring_case(
                short_name((#[trigger] sessions[j]).id),
                name,
            ),
    ensures
        agent_named(sessions, name, from) is None,
    decreases sessions.len() - from,
{
    if from < sessions.len() {
        assert(!same_ignoring_case(short_name(sessions[from].id), name));
        lemma_nobody_named(sessions, name, from + 1);
    }
}

proof fn lemma_message_to_one(
    sessions: Seq<SessionView>,
    t: int,
    body: Seq<char>,
    n: int,
)
    requires
        0 <= t < sessions.len(),
        0 <= n <= sessions.len(),
    ensures
        messages(sessions, Some(t), body, n) == if t < n && sessions[t].alive {
            seq![message_to(t, body)]
        } else {
            Seq::empty()
        },
    decreases n,
{
    if n > 0 {
        lemma_message_to_one(sessions, t, body, n - 1);
        if t == n - 1 {
            assert(messages(sessions, Some(t), body, n) =~= if sessions[t].alive {
                seq![message_to(t, body)]
            } else {
                Seq::empty()
            });
        }
    }
}

/// The user's message `text` to the agent at `i`.
pub open spec fn is_message(a: ActionView, i: int, text: Seq<char>) -> bool {
    &&& a is Send
    &&& a->session == i
    &&& a->input is User
    &&& a->input->User_text == text
}

/// A line that mentions an alive agent is sent to that agent exactly once and to nobody else, without
/// the mention. It does not matter whether the agent is busy, waits for a decision or is still
/// connecting. The line is read in its parts: an `@`, a word, white space and the rest.
pub proof fn law_mention_is_sent(
    v: ChatView,
    name: Seq<char>,
    gap: char,
    rest: Seq<char>,
    t: int,
)
    requires
        trimmed(v.input) == seq!['@'] + (name + seq![gap] + rest),
        is_word(name),
        is_space(gap),
        0 <= t < v.sessions.len(),
        v.sessions[t].alive,
        same_ignoring_case(short_name(v.sessions[t].id), name),
        forall|j: int|
            0 <= j < t ==> !same_ignoring_case(short_name((#[trigger] v.sessions[j]).id), name),
    ensures
        trimmed(rest).len() > 0,
        v.sent().1.len() == 1,
        is_message(v.sent().1[0], t, trimmed(rest)),
{
    let raw = trimmed(v.input);
    law_mention_is_read(v, name, gap, rest, raw, t);
    law_trim(v.input);
    law_trim(rest);
    assert(v.any_alive());
    if trimmed(rest).len() == 0 {
        let (a, b) = choose|a: Seq<char>, b: Seq<char>| #[trigger]
            is_blank(a) && #[trigger] is_blank(b) && rest == a + trimmed(rest) + b;
        assert(raw.last() == if rest.len() == 0 {
            gap
        } else {
            rest.last()
        });
        if rest.len() > 0 {
            assert(rest =~= a + b);
            if b.len() > 0 {
                assert(rest.last() == b[b.len() - 1]);
            } else {
                assert(rest.last() == a[a.len() - 1]);
            }
        }
        assert(false);
    }
    lemma_message_to_one(v.sessions, t, trimmed(rest), v.sessions.len() as int);
}

/// A line that mentions nobody goes as it stands, the mention included, to every alive agent once, in
/// the agents' order, and so does a line without a mention.
pub proof fn law_broadcast(
    v: ChatView,
    name: Seq<char>,
    gap: char,
    rest: Seq<char>,
    i: int,
    k: int,
)
    requires
        trimmed(v.input).len() > 0,
        trimmed(v.input)[0] != '@' || is_word(name) && is_space(gap) && (trimmed(v.input)
            == seq!['@'] + (name + seq![gap] + rest) || trimmed(v.input) == seq!['@'] + name) && (
        forall|j: int|
            0 <= j < v.sessions.len() ==> !same_ignoring_case(
                short_name((#[trigger] v.sessions[j]).id),
                name,
            )),
        0 <= i < v.sessions.len(),
    ensures
        v.sessions[i].alive ==> exists|m: int|
            0 <= m < v.sent().1.len() && is_message(#[trigger] v.sent().1[m], i, trimmed(v.input)),
        0 <= k < v.sent().1.len() ==> ({
            let to = v.sent().1[k]->session;
            &&& 0 <= to < v.sessions.len() && v.sessions[to].alive
            &&& is_message(v.sent().1[k], to, trimmed(v.input))
            &&& k > 0 ==> v.sent().1[k - 1]->session < to
        }),
{
    let raw = trimmed(v.input);
    let n = v.sessions.len() as int;
    if raw[0] != '@' {
        law_mention_is_read(v, Seq::empty(), ' ', rest, raw, 0);
    } else {
        law_mention_is_read(v, name, gap, rest, raw, 0);
    }
    assert(v.target(raw) == (None::<int>, raw));
    assert(v.sessions[i].alive ==> v.any_alive());
    law_message_reaches_addressed(v.sessions, None, raw, n, i);
    if v.sessions[i].alive {
        assert(v.sent().1.contains(message_to(i, raw)));
        let m = choose|m: int| 0 <= m < v.sent().1.len() && v.sent().1[m] == message_to(i, raw);
        assert(is_message(v.sent().1[m], i, raw));
    }
    if 0 <= k < v.sent().1.len() {
        let to = v.sent().1[k]->session;
        law_message_reaches_addressed(v.sessions, None, raw, n, to);
        assert(v.sent().1[k] == message_to(to, raw));
        assert(v.sent().1.contains(message_to(to, raw)));
        if k > 0 {
            assert(v.sent().1[k - 1]->session < v.sent().1[k]->session);
        }
    }
}

/// What sending does to the window. The line stands in the transcript as typed and the input line is
/// empty. Every alive agent that the line is for (all without a target) is busy, with a status that
/// says so and no reply in progress; nothing else of it changes, and nothing of any other agent.
pub proof fn law_sending_changes_window(v: ChatView, i: int)
    requires
        trimmed(v.input).len() > 0,
        v.any_alive(),
        v.target(trimmed(v.input)).1.len() > 0,
        0 <= i < v.sessions.len(),
    ensures
        ({
            let (target, _) = v.target(trimmed(v.input));
            let w = v.sent().0;
            let (s, t) = (v.sessions[i], w.sessions[i]);
            let is_for = s.alive && (target is None || target == Some(i));
            &&& w.convo.len() == v.convo.len() + 1
            &&& w.convo.last().who == Who::User && w.convo.last().text == trimmed(v.input)
            &&& forall|k: int| 0 <= k < v.convo.len() ==> #[trigger] w.convo[k] == v.convo[k]
            &&& w.input.len() == 0 && w.mode == v.mode && w.sessions.len() == v.sessions.len()
            &&& !is_for ==> t == s
            &&& is_for ==> t.busy && t.cur is None && t.status == s.busy_status()
            &&& t.id == s.id && t.color == s.color && t.model == s.model && t.backend == s.backend
            &&& t.ready == s.ready && t.tokens == s.tokens && t.tools == s.tools
            &&& t.activity == s.activity && t.alive == s.alive && t.pending == s.pending
        }),
{
}

/// An empty line, and any line in a window without an alive agent, changes nothing. A mention without
/// a message is taken out of the input line, and a system line says that nothing was sent.
pub proof fn law_nothing_to_send(v: ChatView)
    ensures
        trimmed(v.input).len() == 0 || !v.any_alive() ==> v.sent() == (
            v,
            Seq::<ActionView>::empty(),
        ),
        trimmed(v.input).len() > 0 && v.any_alive() && v.target(trimmed(v.input)).1.len() == 0
            ==> ({
            let (w, sent) = v.sent();
            &&& sent.len() == 0
            &&& w.convo.len() == v.convo.len() + 1
            &&& w.convo.last().who == Who::System
            &&& w.convo.last().text == "(empty message — nothing sent)"@
            &&& forall|k: int| 0 <= k < v.convo.len() ==> #[trigger] w.convo[k] == v.convo[k]
            &&& w.input.len() == 0 && w.mode == v.mode && w.sessions == v.sessions
        }),
{
}

} // verus!
