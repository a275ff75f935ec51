//! What an agent tells the window, what the window tells an agent, and what it asks of its surroundings.

use crate::text::{texts, trim, trimmed};
use vstd::prelude::*;

verus! {

/// An event of an agent's chat stream.
#[derive(Debug)]
pub enum ChatEvent {
    /// The session is up.
    Ready { model: String, backend: String, tools: Vec<String> },
    /// A message of an earlier session.
    Restored { role: String, text: String },
    /// A piece of the reply in progress.
    Token { text: String },
    /// The whole reply.
    Message { text: String },
    ToolCall { name: String, args: String },
    ToolResult { name: String, ok: bool, output: String },
    /// The agent waits for the user's decision.
    PermissionRequest { id: String, tool: String, detail: String },
    ModeChanged { mode: String },
    /// Earlier messages were folded into a summary.
    Compacted { removed: u64 },
    TurnEnd { prompt_tokens: u64, completion_tokens: u64 },
    Error { message: String },
    /// The session is over.
    Bye,
}

/// A [`ChatEvent`] as a mathematical value.
pub enum EventView {
    Ready { model: Seq<char>, backend: Seq<char>, tools: Seq<Seq<char>> },
    Restored { role: Seq<char>, text: Seq<char> },
    Token { text: Seq<char> },
    Message { text: Seq<char> },
    ToolCall { name: Seq<char>, args: Seq<char> },
    ToolResult { name: Seq<char>, ok: bool, output: Seq<char> },
    PermissionRequest { id: Seq<char>, tool: Seq<char>, detail: Seq<char> },
    ModeChanged { mode: Seq<char> },
    Compacted { removed: nat },
    TurnEnd { prompt_tokens: nat, completion_tokens: nat },
    Error { message: Seq<char> },
    Bye,
}

impl View for ChatEvent {
    type V = EventView;

    open spec fn view(&self) -> EventView {
        match *self {
            ChatEvent::Ready { model, backend, tools } => EventView::Ready {
                model: model@,
                backend: backend@,
                tools: texts(tools@),
            },
            ChatEvent::Restored { role, text } => EventView::Restored { role: role@, text: text@ },
            ChatEvent::Token { text } => EventView::Token { text: text@ },
            ChatEvent::Message { text } => EventView::Message { text: text@ },
            ChatEvent::ToolCall { name, args } => EventView::ToolCall { name: name@, args: args@ },
            ChatEvent::ToolResult { name, ok, output } => EventView::ToolResult {
                name: name@,
                ok,
                output: output@,
            },
            ChatEvent::PermissionRequest { id, tool, detail } => EventView::PermissionRequest {
                id: id@,
                tool: tool@,
                detail: detail@,
            },
            ChatEvent::ModeChanged { mode } => EventView::ModeChanged { mode: mode@ },
            ChatEvent::Compacted { removed } => EventView::Compacted { removed: removed as nat },
            ChatEvent::TurnEnd { prompt_tokens, completion_tokens } => EventView::TurnEnd {
                prompt_tokens: prompt_tokens as nat,
                completion_tokens: completion_tokens as nat,
            },
            ChatEvent::Error { message } => EventView::Error { message: message@ },
            ChatEvent::Bye => EventView::Bye,
        }
    }
}

/// The part of a line of an agent's output that holds an event: the line without the white space
/// around it. Blank lines hold none.
pub fn event_text(line: &str) -> (text: Option<String>)
    ensures
        text is Some <==> trimmed(line@).len() > 0,
        text is Some ==> text->0@ == trimmed(line@),
{
    let text = trim(line);
    if text.as_str().is_empty() {
        None
    } else {
        Some(text)
    }
}

/// A line of input to an agent.
#[derive(Debug, PartialEq, Eq)]
pub enum ChatInput {
    /// A message of the user.
    User { text: String },
    /// The user's decision on the request `id`.
    Permission { id: String, allow: bool },
    SetMode { mode: String },
    /// Drop the memory of the conversation.
    Forget,
    Quit,
}

/// A [`ChatInput`] as a mathematical value.
pub enum InputView {
    User { text: Seq<char> },
    Permission { id: Seq<char>, allow: bool },
    SetMode { mode: Seq<char> },
    Forget,
    Quit,
}

impl View for ChatInput {
    type V = InputView;

    open spec fn view(&self) -> InputView {
        match *self {
            ChatInput::User { text } => InputView::User { text: text@ },
            ChatInput::Permission { id, allow } => InputView::Permission { id: id@, allow },
            ChatInput::SetMode { mode } => InputView::SetMode { mode: mode@ },
            ChatInput::Forget => InputView::Forget,
            ChatInput::Quit => InputView::Quit,
        }
    }
}

impl Clone for ChatInput {
    fn clone(&self) -> (copy: Self)
        ensures
            copy@ == self@,
    {
        match self {
            ChatInput::User { text } => ChatInput::User { text: text.clone() },
            ChatInput::Permission { id, allow } => ChatInput::Permission {
                id: id.clone(),
                allow: *allow,
            },
            ChatInput::SetMode { mode } => ChatInput::SetMode { mode: mode.clone() },
            ChatInput::Forget => ChatInput::Forget,
            ChatInput::Quit => ChatInput::Quit,
        }
    }
}

/// What the window has to do after a step.
#[derive(Debug, PartialEq, Eq)]
pub enum Action {
    /// Write `input` to the agent at position `session`.
    Send { session: usize, input: ChatInput },
    /// Close the window.
    Close,
}

/// An [`Action`] as a mathematical value.
pub enum ActionView {
    Send { session: int, input: InputView },
    Close,
}

impl View for Action {
    type V = ActionView;

    open spec fn view(&self) -> ActionView {
        match *self {
            Action::Send { session, input } => ActionView::Send {
                session: session as int,
                input: input@,
            },
            Action::Close => ActionView::Close,
        }
    }
}

/// The views of a list of actions.
pub open spec fn actions_view(v: Seq<Action>) -> Seq<ActionView> {
    v.map_values(|a: Action| a@)
}

pub proof fn lemma_actions_push(v: Seq<Action>, a: Action)
    ensures
        actions_view(v.push(a)) == actions_view(v).push(a@),
{
    assert(actions_view(v.push(a)) =~= actions_view(v).push(a@));
}

/// What an agent is told, and what the surroundings are asked to do, is what the mathematical values
/// say, no more and no less.
pub proof fn law_actions_are_told(actions: Seq<Action>, k: int)
    requires
        0 <= k < actions.len(),
    ensures
        actions_view(actions).len() == actions.len(),
        ({
            let a = actions_view(actions)[k];
            match actions[k] {
                Action::Close => a is Close,
                Action::Send { session, input } => a is Send && a->session == session && (
                match input {
                    ChatInput::User { text } => a->input is User && a->input->User_text == text@,
                    ChatInput::Permission { id, allow } => a->input is Permission && a->input->id
                        == id@ && a->input->allow == allow,
                    ChatInput::SetMode { mode } => a->input is SetMode && a->input->mode == mode@,
                    ChatInput::Forget => a->input is Forget,
                    ChatInput::Quit => a->input is Quit,
                }),
            }
        }),
{
}

/// An event means what its fields hold.
pub proof fn law_events_mean_their_fields(ev: ChatEvent)
    ensures
        match ev {
            ChatEvent::Ready { model, backend, tools } => ev@ is Ready && ev@->model == model@
                && ev@->backend == backend@ && ev@->tools.len() == tools@.len() && forall|k: int|
                0 <= k < tools@.len() ==> #[trigger] ev@->tools[k] == tools@[k]@,
            ChatEvent::Restored { role, text } => ev@ is Restored && ev@->role == role@
                && ev@->Restored_text == text@,
            ChatEvent::Token { text } => ev@ is Token && ev@->Token_text == text@,
            ChatEvent::Message { text } => ev@ is Message && ev@->Message_text == text@,
            ChatEvent::ToolCall { name, args } => ev@ is ToolCall && ev@->ToolCall_name == name@
                && ev@->args == args@,
            ChatEvent::ToolResult { name, ok, output } => ev@ is ToolResult
                && ev@->ToolResult_name == name@ && ev@->ok == ok && ev@->output == output@,
            ChatEvent::PermissionRequest { id, tool, detail } => ev@ is PermissionRequest && ev@->id
                == id@ && ev@->tool == tool@ && ev@->detail == detail@,
            ChatEvent::ModeChanged { mode } => ev@ is ModeChanged && ev@->mode == mode@,
            ChatEvent::Compacted { removed } => ev@ is Compacted && ev@->removed == removed,
            ChatEvent::TurnEnd { prompt_tokens, completion_tokens } => ev@ is TurnEnd
                && ev@->prompt_tokens == prompt_tokens && ev@->completion_tokens
                == completion_tokens,
            ChatEvent::Error { message } => ev@ is Error && ev@->message == message@,
            ChatEvent::Bye => ev@ is Bye,
        },
{
}

} // verus!
