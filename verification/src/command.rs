//! Slash commands: handled by the window, never sent to an agent as a message.

use crate::chat::{line_added, ChatApp, ChatView, MsgView, Who};
use crate::protocol::{actions_view, lemma_actions_push, Action, ActionView, ChatInput, InputView};
use crate::session::SessionView;
use crate::text::{
    after_word, ascii_lowercase, decimal, decimal_string, first_word, is_ascii_text, is_blank,
    is_space, is_word, join, joined, law_split_at_first_space, law_trim_ignores_blank_ends,
    lemma_word_end_at, lowercase, lowers_ascii, replace_char, replaced, same, split_word, to_lowercase,
    trim, trim_start_char, trim_start_of, trimmed,
};
use vstd::prelude::*;

verus! {

/// The commands, with descriptions, as the window lists them when the input starts with `/`.
pub const COMMANDS: [(&'static str, &'static str); 6] = [
    ("/help", "list commands"),
    ("/tools", "list each agent's available tools"),
    ("/mode", "permission mode: default | accept-edits | bypass | plan"),
    ("/clear", "wipe the conversation + tool activity"),
    ("/forget", "clear every agent's memory of this conversation"),
    ("/quit", "close the window"),
];

/// `input` to each of the first `n` agents.
pub open spec fn to_all(n: nat, input: InputView) -> Seq<ActionView> {
    Seq::new(n, |i: int| ActionView::Send { session: i, input })
}

/// What `/tools` says of an agent.
pub open spec fn tools_line(s: SessionView) -> Seq<char> {
    if s.tools.len() == 0 {
        s.id + ": no tools reported."@
    } else {
        s.id + " ("@ + decimal(s.tools.len()) + " tools): "@ + joined(s.tools, ", "@)
    }
}

/// What `/help` says.
pub open spec fn help_line(team: bool) -> Seq<char> {
    "commands: /help · /tools · /mode · /clear · /forget · /quit"@ + if team {
        " · @name to address one agent, bare message broadcasts to all"@
    } else {
        ""@
    }
}

/// A session without its activity and its reply in progress.
pub open spec fn wiped(s: SessionView) -> SessionView {
    SessionView { activity: Seq::empty(), cur: None, ..s }
}

impl ChatView {
    /// The window with one more system line per agent among the first `n`: its tools.
    pub open spec fn with_tools(self, n: int) -> ChatView
        decreases n,
    {
        if n <= 0 {
            self
        } else {
            self.with_tools(n - 1).say(tools_line(self.sessions[n - 1]))
        }
    }

    /// The window with an empty transcript and no activity, and then one system line.
    pub open spec fn cleared(self, text: Seq<char>) -> ChatView {
        ChatView {
            sessions: self.sessions.map_values(|s: SessionView| wiped(s)),
            convo: seq![MsgView { who: Who::System, agent: 0, text }],
            ..self
        }
    }

    /// The window with no session alive.
    pub open spec fn ended(self) -> ChatView {
        ChatView {
            sessions: self.sessions.map_values(
                |s: SessionView| SessionView { alive: false, ..s },
            ),
            ..self
        }
    }

    /// The window and what it sends after the command `name` with argument `arg`.
    pub open spec fn commanded(self, name: Seq<char>, arg: Seq<char>) -> (
        ChatView,
        Seq<ActionView>,
    ) {
        let none = Seq::<ActionView>::empty();
        let n = self.sessions.len();
        if name == ""@ || name == "help"@ || name == "?"@ {
            (self.say(help_line(self.team())), none)
        } else if name == "tools"@ {
            (self.with_tools(n as int), none)
        } else if name == "mode"@ {
            let want = trimmed(arg);
            if want.len() == 0 {
                (
                    self.say(
                        "permission mode: "@ + self.mode
                            + " — set with /mode default | accept-edits | bypass | plan"@,
                    ),
                    none,
                )
            } else {
                (self, to_all(n, InputView::SetMode { mode: replaced(want, '-', '_') }))
            }
        } else if name == "clear"@ {
            (self.cleared("conversation cleared."@), none)
        } else if name == "forget"@ {
            (
                self.cleared("memory cleared — every agent starts fresh."@),
                to_all(n, InputView::Forget),
            )
        } else if name == "quit"@ || name == "exit"@ {
            (self.ended(), to_all(n, InputView::Quit).push(ActionView::Close))
        } else {
            (self.say("unknown command `/"@ + name + "` — try /help"@), none)
        }
    }

    /// Commands keep the window well formed.
    pub proof fn lemma_commanded_wf(self, name: Seq<char>, arg: Seq<char>)
        requires
            self.wf(),
        ensures
            self.commanded(name, arg).0.wf(),
    {
        let n = self.sessions.len() as int;
        self.lemma_with_tools_wf(n);
        let after = self.commanded(name, arg).0;
        if name != "tools"@ {
            assert forall|k: int|
                0 <= k < after.convo.len() && (
                #[trigger] after.convo[k]).who == Who::Agent implies 0 <= after.convo[k].agent
                < after.sessions.len() by {
                if k < self.convo.len() {
                    assert(self.convo[k] == after.convo[k]);
                }
            }
            assert forall|s: int|
                0 <= s < after.sessions.len() && (
                #[trigger] after.sessions[s]).cur is Some implies after.is_line_of(
                after.sessions[s].cur->0,
                s,
            ) by {
                assert(self.sessions[s].cur is Some);
            }
        }
    }

    /// Listing tools leaves the sessions alone.
    pub proof fn lemma_with_tools_sessions(self, n: int)
        ensures
            self.with_tools(n).sessions == self.sessions,
        decreases n,
    {
        if n > 0 {
            self.lemma_with_tools_sessions(n - 1);
        }
    }

    proof fn lemma_with_tools_wf(self, n: int)
        requires
            self.wf(),
        ensures
            self.with_tools(n).wf(),
        decreases n,
    {
        self.lemma_with_tools_sessions(n);
        if n > 0 {
            self.lemma_with_tools_wf(n - 1);
            self.lemma_with_tools_sessions(n - 1);
            let before = self.with_tools(n - 1);
            let after = self.with_tools(n);
            assert forall|k: int|
                0 <= k < after.convo.len() && (
                #[trigger] after.convo[k]).who == Who::Agent implies 0 <= after.convo[k].agent
                < after.sessions.len() by {
                assert(before.convo[k] == after.convo[k]);
            }
            assert forall|s: int|
                0 <= s < after.sessions.len() && (
                #[trigger] after.sessions[s]).cur is Some implies after.is_line_of(
                after.sessions[s].cur->0,
                s,
            ) by {
                assert(before.sessions[s].cur is Some);
            }
        }
    }
}

/// The word of a command line that names the command, as typed.
pub open spec fn command_word(line: Seq<char>) -> Seq<char> {
    first_word(trimmed(line))
}

/// The argument of a command line.
pub open spec fn command_arg(line: Seq<char>) -> Seq<char> {
    trimmed(after_word(trimmed(line)))
}

/// `input` to each of the first `n` agents.
fn send_to_all(n: usize, input: &ChatInput) -> (actions: Vec<Action>)
    ensures
        actions_view(actions@) == to_all(n as nat, input@),
{
    let mut actions: Vec<Action> = Vec::new();
    let mut i: usize = 0;
    while i < n
        invariant
            i <= n,
            actions_view(actions@) == to_all(i as nat, input@),
        decreases n - i,
    {
        let next = Action::Send { session: i, input: input.clone() };
        proof {
            lemma_actions_push(actions@, next);
            assert(to_all(i as nat, input@).push(next@) =~= to_all((i + 1) as nat, input@));
        }
        actions.push(next);
        i += 1;
    }
    actions
}

impl ChatApp {
    /// Add the system lines of `/tools`.
    fn list_tools(&mut self)
        ensures
            final(self)@ == old(self)@.with_tools(old(self).sessions.len() as int),
            final(self).sessions.len() == old(self).sessions.len(),
    {
        let ghost before = self@;
        let mut i: usize = 0;
        while i < self.sessions.len()
            invariant
                i <= self.sessions.len() == before.sessions.len(),
                self@.sessions == before.sessions,
                self@ == before.with_tools(i as int),
            decreases self.sessions.len() - i,
        {
            assert(before.sessions[i as int] == self.sessions[i as int]@);
            let mut text = self.sessions[i].id.clone();
            if self.sessions[i].tools.len() == 0 {
                text.append(": no tools reported.");
            } else {
                text.append(" (");
                text.append(decimal_string(self.sessions[i].tools.len() as u64).as_str());
                text.append(" tools): ");
                text.append(join(&self.sessions[i].tools, ", ").as_str());
            }
            self.push_msg(Who::System, 0, text);
            i += 1;
        }
    }

    /// Empty the transcript and every agent's activity, and say `text`.
    fn wipe(&mut self, text: &str)
        ensures
            final(self)@ == old(self)@.cleared(text@),
            final(self).sessions.len() == old(self).sessions.len(),
    {
        let ghost before = self@;
        self.convo = Vec::new();
        let mut i: usize = 0;
        while i < self.sessions.len()
            invariant
                i <= self.sessions.len() == before.sessions.len(),
                forall|j: int|
                    0 <= j < before.sessions.len() ==> #[trigger] self@.sessions[j] == if j < i {
                        wiped(before.sessions[j])
                    } else {
                        before.sessions[j]
                    },
                self.convo@.len() == 0,
                self@.mode == before.mode,
                self@.input == before.input,
            decreases self.sessions.len() - i,
        {
            let ghost now = self@;
            assert(now.sessions[i as int] == before.sessions[i as int]);
            self.sessions[i].activity = Vec::new();
            self.sessions[i].cur = None;
            assert(self@.sessions[i as int].activity =~= Seq::empty());
            assert(self@.sessions =~= now.sessions.update(
                i as int,
                wiped(now.sessions[i as int]),
            ));
            i += 1;
        }
        self.push_msg(Who::System, 0, text.to_owned());
        assert(self@.sessions =~= before.cleared(text@).sessions);
        assert(self@.convo =~= before.cleared(text@).convo);
    }

    /// Mark every session as over.
    fn end_all(&mut self)
        ensures
            final(self)@ == old(self)@.ended(),
            final(self).sessions.len() == old(self).sessions.len(),
    {
        let ghost before = self@;
        let mut i: usize = 0;
        while i < self.sessions.len()
            invariant
                i <= self.sessions.len() == before.sessions.len(),
                forall|j: int|
                    0 <= j < before.sessions.len() ==> #[trigger] self@.sessions[j] == if j < i {
                        SessionView { alive: false, ..before.sessions[j] }
                    } else {
                        before.sessions[j]
                    },
                self@.convo == before.convo,
                self@.mode == before.mode,
                self@.input == before.input,
            decreases self.sessions.len() - i,
        {
            let ghost now = self@;
            assert(now.sessions[i as int] == before.sessions[i as int]);
            self.sessions[i].alive = false;
            assert(self@.sessions =~= now.sessions.update(
                i as int,
                SessionView { alive: false, ..now.sessions[i as int] },
            ));
            i += 1;
        }
        assert(self@ =~= before.ended());
    }

    /// Run the command `name`, in lower case and without its slash, with argument `arg`.
    pub fn run_named(&mut self, name: &str, arg: &str) -> (actions: Vec<Action>)
        requires
            old(self).wf(),
        ensures
            (final(self)@, actions_view(actions@)) == old(self)@.commanded(name@, arg@),
            final(self).wf(),
            final(self).sessions.len() == old(self).sessions.len(),
    {
        proof {
            old(self)@.lemma_commanded_wf(name@, arg@);
        }
        let mut actions: Vec<Action> = Vec::new();
        assert(actions_view(actions@) =~= Seq::<ActionView>::empty());
        let n: usize = self.sessions.len();
        if same(name, "") || same(name, "help") || same(name, "?") {
            let mut text =
                "commands: /help · /tools · /mode · /clear · /forget · /quit".to_owned();
            text.append(
                if self.team() {
                    " · @name to address one agent, bare message broadcasts to all"
                } else {
                    ""
                },
            );
            self.push_msg(Who::System, 0, text);
        } else if same(name, "tools") {
            self.list_tools();
        } else if same(name, "mode") {
            let want = trim(arg);
            if want.as_str().is_empty() {
                let mut text = "permission mode: ".to_owned();
                text.append(self.mode.as_str());
                text.append(" — set with /mode default | accept-edits | bypass | plan");
                self.push_msg(Who::System, 0, text);
            } else {
                let mode = replace_char(want.as_str(), '-', '_');
                actions = send_to_all(n, &ChatInput::SetMode { mode });
            }
        } else if same(name, "clear") {
            self.wipe("conversation cleared.");
        } else if same(name, "forget") {
            actions = send_to_all(n, &ChatInput::Forget);
            self.wipe("memory cleared — every agent starts fresh.");
        } else if same(name, "quit") || same(name, "exit") {
            actions = send_to_all(n, &ChatInput::Quit);
            self.end_all();
            proof {
                lemma_actions_push(actions@, Action::Close);
            }
            actions.push(Action::Close);
        } else {
            let mut text = "unknown command `/".to_owned();
            text.append(name);
            text.append("` — try /help");
            self.push_msg(Who::System, 0, text);
        }
        actions
    }

    /// Run a command line without its leading slash. The case of the command's name does not matter.
    pub fn run_command(&mut self, line: &str) -> (actions: Vec<Action>)
        requires
            old(self).wf(),
        ensures
            (final(self)@, actions_view(actions@)) == old(self)@.commanded(
                lowercase(command_word(line@)),
                command_arg(line@),
            ),
            lowers_ascii(command_word(line@)),
            final(self).wf(),
            final(self).sessions.len() == old(self).sessions.len(),
    {
        let line = trim(line);
        let (word, rest) = split_word(line.as_str());
        let name = to_lowercase(word.as_str());
        let arg = trim(rest.as_str());
        self.run_named(name.as_str(), arg.as_str())
    }
}

/// The name of the listed command at `i`.
pub open spec fn listed_name(i: int) -> Seq<char> {
    COMMANDS[i].0@.skip(1)
}

/// Every listed command is a slash and a name in lower case.
pub proof fn lemma_command_names(i: int)
    requires
        0 <= i < COMMANDS.len(),
    ensures
        COMMANDS[i].0@.len() > 1,
        COMMANDS[i].0@[0] == '/',
        forall|k: int| 0 < k < COMMANDS[i].0@.len() ==> 'a' <= #[trigger] COMMANDS[i].0@[k] <= 'z',
{
    reveal_strlit("/help");
    reveal_strlit("/tools");
    reveal_strlit("/mode");
    reveal_strlit("/clear");
    reveal_strlit("/forget");
    reveal_strlit("/quit");
}

/// A line that is just a name in lower case names the command and has no argument.
proof fn lemma_bare_line(name: Seq<char>)
    requires
        name.len() > 0,
        forall|k: int| 0 <= k < name.len() ==> 'a' <= #[trigger] name[k] <= 'z',
    ensures
        command_word(name) == name,
        command_arg(name) == Seq::<char>::empty(),
        is_ascii_text(name),
        ascii_lowercase(name) == name,
{
    assert(!is_space(name[0]));
    assert(!is_space(name.last()));
    assert(trimmed(name) == name);
    lemma_word_end_at(name, name.len() as int);
    assert(first_word(name) =~= name);
    assert(ascii_lowercase(name) =~= name);
}

impl ChatApp {
    /// Run the listed command at `i`, as when its row is clicked.
    pub fn run_listed(&mut self, i: usize) -> (actions: Vec<Action>)
        requires
            old(self).wf(),
            i < COMMANDS.len(),
        ensures
            (final(self)@, actions_view(actions@)) == old(self)@.commanded(
                listed_name(i as int),
                Seq::empty(),
            ),
            final(self).wf(),
            final(self).sessions.len() == old(self).sessions.len(),
    {
        let line = trim_start_of(COMMANDS[i].0, '/');
        proof {
            let full = COMMANDS[i as int].0@;
            let name = listed_name(i as int);
            lemma_command_names(i as int);
            assert(full.drop_first() =~= name);
            assert(name[0] == full[1]);
            assert(trim_start_char(full, '/') == trim_start_char(name, '/'));
            assert(line@ == name);
            assert forall|k: int| 0 <= k < name.len() implies 'a' <= #[trigger] name[k] <= 'z' by {
                assert(name[k] == full[k + 1]);
            }
            lemma_bare_line(name);
        }
        self.run_command(line.as_str())
    }
}

// ---------------------------------------------------------------------------
// Laws
// ---------------------------------------------------------------------------

/// The commands that the window knows.
pub open spec fn is_known(name: Seq<char>) -> bool {
    ||| name == ""@ || name == "help"@ || name == "?"@
    ||| name == "tools"@ || name == "mode"@ || name == "clear"@ || name == "forget"@
    ||| name == "quit"@ || name == "exit"@
}

/// Every command that the window lists is one that it knows.
pub proof fn law_listed_commands_are_known(i: int)
    requires
        0 <= i < COMMANDS.len(),
    ensures
        is_known(listed_name(i)),
{
    reveal_strlit("/help");
    reveal_strlit("/tools");
    reveal_strlit("/mode");
    reveal_strlit("/clear");
    reveal_strlit("/forget");
    reveal_strlit("/quit");
    reveal_strlit("help");
    reveal_strlit("tools");
    reveal_strlit("mode");
    reveal_strlit("clear");
    reveal_strlit("forget");
    reveal_strlit("quit");
    let name = listed_name(i);
    assert(name =~= "help"@ || name =~= "tools"@ || name =~= "mode"@ || name =~= "clear"@ || name
        =~= "forget"@ || name =~= "quit"@);
}

/// An unknown command changes nothing but that it is called unknown.
pub proof fn law_unknown_command_is_reported(v: ChatView, name: Seq<char>, arg: Seq<char>)
    requires
        !is_known(name),
    ensures
        v.commanded(name, arg) == (
            v.say("unknown command `/"@ + name + "` — try /help"@),
            Seq::<ActionView>::empty(),
        ),
{
}

/// No command reaches an agent as a message of the user.
pub proof fn law_commands_are_no_messages(v: ChatView, name: Seq<char>, arg: Seq<char>, k: int)
    requires
        0 <= k < v.commanded(name, arg).1.len(),
    ensures
        v.commanded(name, arg).1[k] is Send ==> !(v.commanded(name, arg).1[k]->input is User),
{
}

/// `/clear` and `/forget` leave one line in the transcript, no activity and no reply in progress;
/// who is alive, who is busy and who waits for a decision stays as it was. Only `/forget` tells the
/// agents, every one of them.
pub proof fn law_clear_and_forget(v: ChatView, arg: Seq<char>, i: int)
    requires
        0 <= i < v.sessions.len(),
    ensures
        v.commanded("clear"@, arg).0.convo.len() == 1,
        v.commanded("clear"@, arg).1.len() == 0,
        v.commanded("clear"@, arg).0.sessions[i] == wiped(v.sessions[i]),
        v.commanded("forget"@, arg).0.convo.len() == 1,
        v.commanded("forget"@, arg).0.sessions == v.commanded("clear"@, arg).0.sessions,
        v.commanded("forget"@, arg).1.len() == v.sessions.len(),
        v.commanded("forget"@, arg).1[i] == (ActionView::Send {
            session: i,
            input: InputView::Forget,
        }),
{
    lemma_names_differ();
}

/// `/quit` tells every agent, closes the window last and leaves no session alive; nothing can be sent
/// after it.
pub proof fn law_quit_ends_all(v: ChatView, arg: Seq<char>, i: int)
    requires
        0 <= i < v.sessions.len(),
    ensures
        v.commanded("quit"@, arg).1.len() == v.sessions.len() + 1,
        v.commanded("quit"@, arg).1[i] == (ActionView::Send {
            session: i,
            input: InputView::Quit,
        }),
        v.commanded("quit"@, arg).1.last() is Close,
        !v.commanded("quit"@, arg).0.any_alive(),
        v.commanded("quit"@, arg).0.sent().1.len() == 0,
{
    lemma_names_differ();
}

proof fn lemma_names_differ()
    ensures
        "clear"@ != ""@ && "clear"@ != "help"@ && "clear"@ != "?"@ && "clear"@ != "tools"@
            && "clear"@ != "mode"@,
        "forget"@ != ""@ && "forget"@ != "help"@ && "forget"@ != "?"@ && "forget"@ != "tools"@
            && "forget"@ != "mode"@ && "forget"@ != "clear"@,
        "quit"@ != ""@ && "quit"@ != "help"@ && "quit"@ != "?"@ && "quit"@ != "tools"@ && "quit"@
            != "mode"@ && "quit"@ != "clear"@ && "quit"@ != "forget"@,
{
    reveal_strlit("");
    reveal_strlit("help");
    reveal_strlit("?");
    reveal_strlit("tools");
    reveal_strlit("mode");
    reveal_strlit("clear");
    reveal_strlit("forget");
    reveal_strlit("quit");
    assert(""@.len() == 0 && "?"@.len() == 1);
    assert("help"@[0] == 'h' && "tools"@[0] == 't' && "mode"@[0] == 'm');
    assert("clear"@[0] == 'c' && "forget"@[0] == 'f' && "quit"@[0] == 'q');
    assert("clear"@.len() == 5 && "forget"@.len() == 6 && "quit"@.len() == 4);
}

// ---------------------------------------------------------------------------
// What each command does
// ---------------------------------------------------------------------------

/// From `v` to `w`, one system line comes to the transcript, and nothing else changes.
pub open spec fn only_says(v: ChatView, w: ChatView, text: Seq<char>) -> bool {
    line_added(v, w, Who::System, 0, text) && w.sessions == v.sessions
}

/// The commands' names all differ.
proof fn lemma_all_names_differ()
    ensures
        "tools"@ != ""@ && "tools"@ != "help"@ && "tools"@ != "?"@,
        "mode"@ != ""@ && "mode"@ != "help"@ && "mode"@ != "?"@ && "mode"@ != "tools"@,
        "exit"@ != ""@ && "exit"@ != "help"@ && "exit"@ != "?"@ && "exit"@ != "tools"@,
        "exit"@ != "mode"@ && "exit"@ != "clear"@ && "exit"@ != "forget"@,
{
    reveal_strlit("");
    reveal_strlit("help");
    reveal_strlit("?");
    reveal_strlit("tools");
    reveal_strlit("mode");
    reveal_strlit("clear");
    reveal_strlit("forget");
    reveal_strlit("exit");
    assert(""@.len() == 0 && "?"@.len() == 1 && "tools"@.len() == 5 && "clear"@.len() == 5);
    assert("forget"@.len() == 6);
    assert("help"@[0] == 'h' && "mode"@[0] == 'm' && "exit"@[0] == 'e');
}

/// `/help`, `/?` and a lone `/` list the commands in one system line, and in a team say how to address
/// an agent. Nothing is sent.
pub proof fn law_help(v: ChatView, name: Seq<char>, arg: Seq<char>)
    requires
        name == ""@ || name == "help"@ || name == "?"@,
    ensures
        v.commanded(name, arg).1.len() == 0,
        v.sessions.len() <= 1 ==> only_says(
            v,
            v.commanded(name, arg).0,
            "commands: /help · /tools · /mode · /clear · /forget · /quit"@,
        ),
        v.sessions.len() > 1 ==> only_says(
            v,
            v.commanded(name, arg).0,
            "commands: /help · /tools · /mode · /clear · /forget · /quit"@
                + " · @name to address one agent, bare message broadcasts to all"@,
        ),
{
    reveal_strlit("");
    let all = "commands: /help · /tools · /mode · /clear · /forget · /quit"@;
    assert(all + ""@ =~= all);
}

proof fn lemma_with_tools(v: ChatView, n: int)
    requires
        0 <= n <= v.sessions.len(),
    ensures
        ({
            let w = v.with_tools(n);
            &&& w.sessions == v.sessions && w.input == v.input && w.mode == v.mode
            &&& w.convo.len() == v.convo.len() + n
            &&& forall|k: int| 0 <= k < v.convo.len() ==> #[trigger] w.convo[k] == v.convo[k]
            &&& forall|k: int|
                v.convo.len() <= k < w.convo.len() ==> (#[trigger] w.convo[k]) == (MsgView {
                    who: Who::System,
                    agent: 0,
                    text: tools_line(v.sessions[k - v.convo.len()]),
                })
        }),
    decreases n,
{
    if n > 0 {
        lemma_with_tools(v, n - 1);
    }
}

/// `/tools` adds one system line per agent, in the agents' order: its id, and how many tools it
/// reported and which, or that it reported none. Nothing is sent.
pub proof fn law_tools(v: ChatView, arg: Seq<char>, i: int)
    requires
        0 <= i < v.sessions.len(),
    ensures
        ({
            let (w, sent) = v.commanded("tools"@, arg);
            let s = v.sessions[i];
            let line = w.convo[v.convo.len() + i];
            &&& sent.len() == 0
            &&& w.sessions == v.sessions && w.input == v.input && w.mode == v.mode
            &&& w.convo.len() == v.convo.len() + v.sessions.len()
            &&& forall|k: int| 0 <= k < v.convo.len() ==> #[trigger] w.convo[k] == v.convo[k]
            &&& line.who == Who::System
            &&& s.tools.len() == 0 ==> line.text == s.id + ": no tools reported."@
            &&& s.tools.len() > 0 ==> line.text == s.id + " ("@ + decimal(s.tools.len())
                + " tools): "@ + joined(s.tools, ", "@)
        }),
{
    lemma_all_names_differ();
    lemma_with_tools(v, v.sessions.len() as int);
}

/// `/mode` with an argument leaves the window as it is and sends every agent, alive or not, the mode
/// that was asked for: the argument without white space around it, letter for letter, but for `_` in
/// place of `-`. Without an argument it says which mode is on.
pub proof fn law_mode(v: ChatView, arg: Seq<char>, i: int, k: int)
    ensures
        trimmed(arg).len() > 0 ==> v.commanded("mode"@, arg).0 == v && v.commanded(
            "mode"@,
            arg,
        ).1.len() == v.sessions.len(),
        trimmed(arg).len() > 0 && 0 <= i < v.sessions.len() ==> ({
            let a = v.commanded("mode"@, arg).1[i];
            &&& a is Send && a->session == i && a->input is SetMode
            &&& a->input->mode.len() == trimmed(arg).len()
            &&& 0 <= k < trimmed(arg).len() && trimmed(arg)[k] == '-' ==> a->input->mode[k] == '_'
            &&& 0 <= k < trimmed(arg).len() && trimmed(arg)[k] != '-' ==> a->input->mode[k]
                == trimmed(arg)[k]
        }),
        trimmed(arg).len() == 0 ==> v.commanded("mode"@, arg).1.len() == 0 && only_says(
            v,
            v.commanded("mode"@, arg).0,
            "permission mode: "@ + v.mode
                + " — set with /mode default | accept-edits | bypass | plan"@,
        ),
{
    lemma_all_names_differ();
}

/// `/clear` and `/forget` leave a single system line in the transcript and take every agent's activity
/// and reply in progress away. All else of the window stays: the input line, the mode, and of each
/// agent its name, colour, status, tools, request and whether it is busy or alive.
pub proof fn law_clear_and_forget_wipe(v: ChatView, arg: Seq<char>, i: int)
    ensures
        ({
            let clear = v.commanded("clear"@, arg).0;
            let forget = v.commanded("forget"@, arg).0;
            &&& clear.convo.len() == 1 && forget.convo.len() == 1
            &&& clear.convo[0].who == Who::System && forget.convo[0].who == Who::System
            &&& clear.convo[0].text == "conversation cleared."@
            &&& forget.convo[0].text == "memory cleared — every agent starts fresh."@
            &&& clear.input == v.input && clear.mode == v.mode
            &&& forget.input == v.input && forget.mode == v.mode
            &&& clear.sessions.len() == v.sessions.len()
            &&& forget.sessions == clear.sessions
            &&& 0 <= i < v.sessions.len() ==> ({
                let (s, t) = (v.sessions[i], clear.sessions[i]);
                &&& t.activity.len() == 0 && t.cur is None
                &&& t.id == s.id && t.color == s.color && t.model == s.model
                &&& t.backend == s.backend && t.status == s.status && t.ready == s.ready
                &&& t.tokens == s.tokens && t.tools == s.tools && t.pending == s.pending
                &&& t.busy == s.busy && t.alive == s.alive
            })
        }),
{
    lemma_names_differ();
}

/// `/quit` and `/exit` do the same. No agent is alive afterwards, and nothing else of the window
/// changes.
pub proof fn law_quit_and_exit(v: ChatView, arg: Seq<char>, i: int)
    ensures
        v.commanded("exit"@, arg) == v.commanded("quit"@, arg),
        ({
            let w = v.commanded("quit"@, arg).0;
            &&& w.convo == v.convo && w.input == v.input && w.mode == v.mode
            &&& w.sessions.len() == v.sessions.len()
            &&& 0 <= i < v.sessions.len() ==> ({
                let (s, t) = (v.sessions[i], w.sessions[i]);
                &&& !t.alive
                &&& t.id == s.id && t.color == s.color && t.model == s.model
                &&& t.backend == s.backend && t.status == s.status && t.ready == s.ready
                &&& t.tokens == s.tokens && t.tools == s.tools && t.activity == s.activity
                &&& t.pending == s.pending && t.busy == s.busy && t.cur == s.cur
            })
        }),
{
    lemma_names_differ();
    lemma_all_names_differ();
}

/// A command that is none of those above is called unknown, by its name, in one system line; nothing is
/// sent.
pub proof fn law_other_commands_are_unknown(v: ChatView, name: Seq<char>, arg: Seq<char>)
    requires
        name != ""@ && name != "help"@ && name != "?"@ && name != "tools"@ && name != "mode"@,
        name != "clear"@ && name != "forget"@ && name != "quit"@ && name != "exit"@,
    ensures
        v.commanded(name, arg).1.len() == 0,
        only_says(v, v.commanded(name, arg).0, "unknown command `/"@ + name + "` — try /help"@),
{
}

/// A command line is the command's name, as far as the first white space, and its argument behind it;
/// white space around the line and around the argument does not count.
pub proof fn law_command_line_is_read(
    before: Seq<char>,
    name: Seq<char>,
    gap: char,
    arg: Seq<char>,
    after: Seq<char>,
)
    requires
        is_blank(before),
        is_blank(after),
        is_word(name),
        name.len() > 0,
        is_space(gap),
        arg.len() > 0,
        !is_space(arg.last()),
    ensures
        command_word(before + (name + seq![gap] + arg) + after) == name,
        command_arg(before + (name + seq![gap] + arg) + after) == trimmed(arg),
        command_word(before + name + after) == name,
        command_arg(before + name + after) == Seq::<char>::empty(),
        command_word(before) == Seq::<char>::empty(),
        command_arg(before) == Seq::<char>::empty(),
{
    let line = name + seq![gap] + arg;
    assert(line[0] == name[0]);
    assert(!is_space(name[0]) && !is_space(name[name.len() - 1]));
    assert(line.last() == arg.last());
    law_trim_ignores_blank_ends(before, line, after);
    law_trim_ignores_blank_ends(before, name, after);
    let none = Seq::<char>::empty();
    law_trim_ignores_blank_ends(before, none, none);
    assert(before + none + none =~= before);
    law_split_at_first_space(name, gap, arg);
    law_split_at_first_space(none, gap, arg);
    law_trim_ignores_blank_ends(none, none, none);
    assert(none + none + none =~= none);
}

/// The commands that the window lists, each with its slash and what it does: help, tools, mode, clear,
/// forget and quit.
pub proof fn law_listed_commands()
    ensures
        COMMANDS.len() == 6,
        listed_name(0) == "help"@,
        listed_name(1) == "tools"@,
        listed_name(2) == "mode"@,
        listed_name(3) == "clear"@,
        listed_name(4) == "forget"@,
        listed_name(5) == "quit"@,
        forall|i: int| 0 <= i < 6 ==> (#[trigger] COMMANDS[i]).0@ == seq!['/'] + listed_name(i),
        COMMANDS[0].1@ == "list commands"@,
        COMMANDS[1].1@ == "list each agent's available tools"@,
        COMMANDS[2].1@ == "permission mode: default | accept-edits | bypass | plan"@,
        COMMANDS[3].1@ == "wipe the conversation + tool activity"@,
        COMMANDS[4].1@ == "clear every agent's memory of this conversation"@,
        COMMANDS[5].1@ == "close the window"@,
{
    reveal_strlit("/help");
    reveal_strlit("/tools");
    reveal_strlit("/mode");
    reveal_strlit("/clear");
    reveal_strlit("/forget");
    reveal_strlit("/quit");
    reveal_strlit("help");
    reveal_strlit("tools");
    reveal_strlit("mode");
    reveal_strlit("clear");
    reveal_strlit("forget");
    reveal_strlit("quit");
    assert(listed_name(0) =~= "help"@);
    assert(listed_name(1) =~= "tools"@);
    assert(listed_name(2) =~= "mode"@);
    assert(listed_name(3) =~= "clear"@);
    assert(listed_name(4) =~= "forget"@);
    assert(listed_name(5) =~= "quit"@);
    assert forall|i: int| 0 <= i < 6 implies (#[trigger] COMMANDS[i]).0@ == seq!['/']
        + listed_name(i) by {
        lemma_command_names(i);
        assert(COMMANDS[i].0@ =~= seq!['/'] + listed_name(i));
    }
}

} // verus!
