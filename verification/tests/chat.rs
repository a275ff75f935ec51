use bwoc_chat::chat::{window_title, ChatApp, Who};
use bwoc_chat::colour::palette;
use bwoc_chat::config::AgentConfig;
use bwoc_chat::frame::Clicks;
use bwoc_chat::protocol::{event_text, Action, ChatEvent, ChatInput};
use bwoc_chat::session::AgentSession;

fn session(id: &str, i: usize) -> AgentSession {
    let cfg = AgentConfig {
        agent_id: id.to_string(),
        agent_path: "/p",
        backend: "ollama".to_string(),
        model: "m".to_string(),
        endpoint: "e".to_string(),
    };
    AgentSession::new(&cfg, palette(i))
}

fn chat(ids: &[&str]) -> ChatApp {
    let sessions = ids.iter().enumerate().map(|(i, id)| session(id, i)).collect();
    ChatApp::new(sessions)
}

fn s(text: &str) -> String {
    text.to_string()
}

fn token(text: &str) -> ChatEvent {
    ChatEvent::Token { text: s(text) }
}

fn lines(app: &ChatApp) -> Vec<&str> {
    app.convo.iter().map(|m| m.text.as_str()).collect()
}

fn user(session: usize, text: &str) -> Action {
    Action::Send {
        session,
        input: ChatInput::User { text: s(text) },
    }
}

fn nothing() -> Clicks {
    Clicks {
        pick: None,
        command: None,
        send: false,
        decisions: vec![],
    }
}

fn send(app: &mut ChatApp, line: &str) -> Vec<Action> {
    app.input = s(line);
    app.dispatch(Clicks {
        send: true,
        ..nothing()
    })
}

#[test]
fn a_fresh_window_greets() {
    let one = chat(&["agent-ada"]);
    assert_eq!(
        lines(&one),
        vec!["Connected. Type a message and press Enter — or /help for commands."]
    );
    assert_eq!(one.mode, "default");
    assert!(!one.team());
    assert!(one.any_alive());
    assert!(!one.any_busy());
    assert_eq!(one.sessions[0].status, "m · ollama · connecting…");
    assert_eq!(window_title(&one.sessions), "bwoc · agent-ada");

    let team = chat(&["agent-ada", "bob"]);
    assert_eq!(
        lines(&team),
        vec!["Team connected (2 agents). A message goes to all; prefix @ada / @bob to address one. /help for commands."]
    );
    assert!(team.team());
    assert_eq!(window_title(&team.sessions), "bwoc team · ada, bob");
    assert_eq!(window_title(&vec![]), "bwoc team · ");
    assert!(!chat(&[]).any_alive());
}

#[test]
fn ready_sets_status_and_tools() {
    let mut app = chat(&["a", "b"]);
    app.apply(
        1,
        ChatEvent::Ready {
            model: s("gem"),
            backend: s("ollama"),
            tools: vec![s("grep")],
        },
    );
    assert_eq!(app.sessions[1].status, "gem · ollama · ready");
    assert_eq!(app.sessions[1].tools, vec![s("grep")]);
    assert_eq!(app.sessions[0].status, "m · ollama · connecting…");
}

#[test]
fn the_status_names_model_and_backend() {
    let mut app = chat(&["a", "b"]);
    let turn_end = || ChatEvent::TurnEnd {
        prompt_tokens: 7,
        completion_tokens: 0,
    };
    app.apply(0, turn_end());
    assert_eq!(app.sessions[0].status, "m · ollama · ready · tokens 7 in / 0 out");
    app.apply(
        0,
        ChatEvent::Ready {
            model: s("gem"),
            backend: s("openai-compatible"),
            tools: vec![],
        },
    );
    app.apply(0, turn_end());
    assert_eq!(
        app.sessions[0].status,
        "gem · openai-compatible · ready · tokens 7 in / 0 out"
    );
    send(&mut app, "@a go on");
    assert_eq!(
        app.sessions[0].status,
        "gem · openai-compatible · busy · tokens 7 in / 0 out"
    );
    assert_eq!(app.sessions[1].status, "m · ollama · connecting…");
    app.apply(0, ChatEvent::Error { message: s("no") });
    let idle = "gem · openai-compatible · ready · tokens 7 in / 0 out";
    assert_eq!(app.sessions[0].status, idle);
    for line in ["/tools", "/mode plan", "/forget", "/clear", "/quit"] {
        send(&mut app, line);
        assert_eq!(app.sessions[0].status, idle);
    }
    app.apply(0, ChatEvent::Bye);
    assert_eq!(app.sessions[0].status, idle);
}

#[test]
fn an_error_brings_the_idle_status_back() {
    let mut app = chat(&["a"]);
    let error = || ChatEvent::Error { message: s("no") };
    app.apply(0, error());
    assert_eq!(app.sessions[0].status, "m · ollama · connecting…");
    send(&mut app, "hello");
    assert_eq!(app.sessions[0].status, "m · ollama · busy");
    app.apply(0, error());
    assert_eq!(app.sessions[0].status, "m · ollama · connecting…");
    app.apply(
        0,
        ChatEvent::Ready {
            model: s("gem"),
            backend: s("ollama"),
            tools: vec![],
        },
    );
    send(&mut app, "hello");
    assert_eq!(app.sessions[0].status, "gem · ollama · busy");
    app.apply(0, error());
    assert_eq!(app.sessions[0].status, "gem · ollama · ready");
}

#[test]
fn a_window_without_sessions_takes_its_own_events() {
    let mut app = chat(&[]);
    app.apply(0, ChatEvent::ModeChanged { mode: s("bypass") });
    app.apply(1, ChatEvent::ModeChanged { mode: s("bypass") });
    assert_eq!(app.mode, "bypass");
    assert_eq!(lines(&app)[1..], ["permission mode → bypass"]);
    assert_eq!((app.convo[1].who, app.convo[1].agent), (Who::System, 0));
    app.apply_all(
        3,
        vec![
            ChatEvent::Compacted { removed: 2 },
            ChatEvent::Restored {
                role: s("user"),
                text: s("q"),
            },
        ],
    );
    assert_eq!(
        lines(&app)[2..],
        ["context compacted — folded 2 earlier messages", "q"]
    );
    assert_eq!((app.convo[3].who, app.convo[3].agent), (Who::User, 3));
}

#[test]
fn a_frame_drains_every_agent() {
    let request = || ChatEvent::PermissionRequest {
        id: s("r1"),
        tool: s("ls"),
        detail: s(""),
    };
    let mut app = chat(&["a", "b", "c"]);
    app.input = s("typing");
    app.drain(vec![
        vec![token("x1 "), token("x2")],
        vec![],
        vec![token("z"), request(), ChatEvent::Bye],
    ]);
    assert_eq!(lines(&app)[1..], ["x1 x2", "z", "c session ended."]);
    assert_eq!(app.convo[2].agent, 2);
    assert!(app.sessions[0].alive && app.sessions[1].alive && !app.sessions[2].alive);
    assert_eq!(app.dispatch(nothing()), vec![]);
    assert_eq!(app.input, "typing");
    assert!(app.sessions[2].pending.is_some());

    let mut other = chat(&["a", "b", "c"]);
    other.apply_all(0, vec![token("x1 "), token("x2")]);
    other.apply_all(2, vec![token("z"), request(), ChatEvent::Bye]);
    assert_eq!(lines(&app), lines(&other));
}

#[test]
fn restored_lines_keep_their_speaker() {
    let mut app = chat(&["a", "b"]);
    app.apply(
        1,
        ChatEvent::Restored {
            role: s("user"),
            text: s("q"),
        },
    );
    app.apply(
        1,
        ChatEvent::Restored {
            role: s("assistant"),
            text: s("r"),
        },
    );
    assert_eq!(app.convo[1].who, Who::User);
    assert_eq!(app.convo[2].who, Who::Agent);
    assert_eq!(app.convo[2].agent, 1);
    assert_eq!(app.sessions[1].cur, None);
}

#[test]
fn concurrent_replies_do_not_mix() {
    let mut app = chat(&["a", "b"]);
    app.apply(0, token("x1 "));
    app.apply(1, token("y1 "));
    app.apply(0, token("x2"));
    app.apply(1, token("y2"));
    assert_eq!(lines(&app)[1..], ["x1 x2", "y1 y2"]);
    assert_eq!(app.convo[2].agent, 1);
    app.apply(0, ChatEvent::Message { text: s("whole") });
    assert_eq!(lines(&app)[1..], ["whole", "y1 y2"]);
    app.apply(
        0,
        ChatEvent::TurnEnd {
            prompt_tokens: 12,
            completion_tokens: 345,
        },
    );
    assert_eq!(
        app.sessions[0].status,
        "m · ollama · ready · tokens 12 in / 345 out"
    );
    assert_eq!(app.sessions[0].cur, None);
    assert_eq!(app.sessions[1].cur, Some(2));
    app.apply(0, token("next"));
    assert_eq!(lines(&app)[1..], ["whole", "y1 y2", "next"]);
}

#[test]
fn a_message_without_tokens_is_a_line() {
    let mut app = chat(&["a"]);
    app.apply(0, ChatEvent::Message { text: s("all at once") });
    assert_eq!(lines(&app)[1..], ["all at once"]);
    assert_eq!(app.sessions[0].cur, Some(1));
}

#[test]
fn streamed_pieces_make_one_line() {
    let mut app = chat(&["a"]);
    app.apply_all(0, vec![token("one "), token(""), token("two"), token("!")]);
    assert_eq!(lines(&app)[1..], ["one two!"]);
    app.apply_all(0, vec![]);
    assert_eq!(app.convo.len(), 2);
}

#[test]
fn tool_events_are_summarised() {
    let mut app = chat(&["a"]);
    app.apply(
        0,
        ChatEvent::ToolCall {
            name: s("grep"),
            args: s("{ \"q\":\n 1 }"),
        },
    );
    app.apply(
        0,
        ChatEvent::ToolResult {
            name: s("grep"),
            ok: true,
            output: s("fine"),
        },
    );
    app.apply(
        0,
        ChatEvent::ToolResult {
            name: s("ls"),
            ok: false,
            output: "z".repeat(90),
        },
    );
    let rows = &app.sessions[0].activity;
    assert_eq!(rows[0].summary, "» grep { \"q\": 1 }");
    assert_eq!(rows[0].body, "{ \"q\":\n 1 }");
    assert_eq!(rows[1].summary, "[ok] grep: fine");
    assert_eq!(rows[1].body, "");
    assert_eq!(rows[2].summary, format!("[err] ls: {}…", "z".repeat(80)));
    assert_eq!(rows[2].body, "z".repeat(90));
}

#[test]
fn a_mode_change_is_shown_once() {
    let mut app = chat(&["a", "b"]);
    app.apply(0, ChatEvent::ModeChanged { mode: s("plan") });
    app.apply(1, ChatEvent::ModeChanged { mode: s("plan") });
    assert_eq!(lines(&app)[1..], ["permission mode → plan"]);
    assert_eq!(app.mode, "plan");
}

#[test]
fn other_events_are_reported() {
    let mut app = chat(&["agent-a"]);
    app.apply(0, ChatEvent::Compacted { removed: 17 });
    app.sessions[0].busy = true;
    app.apply(0, ChatEvent::Error { message: s("no") });
    assert!(!app.sessions[0].busy);
    app.apply(0, ChatEvent::Bye);
    assert!(!app.sessions[0].alive);
    assert_eq!(
        lines(&app)[1..],
        [
            "context compacted — folded 17 earlier messages",
            "agent-a error: no",
            "agent-a session ended."
        ]
    );
}

#[test]
fn blank_output_lines_hold_no_event() {
    assert_eq!(event_text("  \t"), None);
    assert_eq!(event_text(" {} \r"), Some(s("{}")));
}

#[test]
fn a_bare_message_goes_to_every_alive_agent() {
    let mut app = chat(&["a", "b", "c"]);
    app.sessions[1].alive = false;
    app.sessions[2].cur = None;
    let actions = send(&mut app, "  hello all ");
    assert_eq!(actions, vec![user(0, "hello all"), user(2, "hello all")]);
    assert_eq!(app.input, "");
    assert_eq!(app.convo[1].who, Who::User);
    assert_eq!(app.convo[1].text, "hello all");
    assert!(app.sessions[0].busy && !app.sessions[1].busy && app.sessions[2].busy);
    assert!(app.any_busy());
    assert_eq!(app.repaint_after(), 50);
}

#[test]
fn a_mention_goes_to_one_agent() {
    let mut app = chat(&["agent-ada", "agent-bob"]);
    assert_eq!(send(&mut app, "@BOB  hi there "), vec![user(1, "hi there")]);
    assert_eq!(app.convo[1].text, "@BOB  hi there");
    assert!(!app.sessions[0].busy);
    assert_eq!(app.parse_target("@ada"), (Some(0), s("")));
    assert_eq!(app.parse_target("@nobody x"), (None, s("@nobody x")));
    assert_eq!(app.parse_target("ada x"), (None, s("ada x")));
    assert_eq!(app.parse_target("@"), (None, s("@")));
    app.sessions[0].alive = false;
    assert_eq!(send(&mut app, "@ada hi"), vec![]);
    assert_eq!(app.convo[2].text, "@ada hi");
}

#[test]
fn an_empty_message_is_not_sent() {
    let mut app = chat(&["agent-ada"]);
    assert_eq!(send(&mut app, "   "), vec![]);
    assert_eq!(app.input, "   ");
    assert_eq!(app.convo.len(), 1);
    assert_eq!(send(&mut app, "@ada  "), vec![]);
    assert_eq!(app.convo[1].text, "(empty message — nothing sent)");
    assert_eq!(app.input, "");
    app.sessions[0].alive = false;
    assert_eq!(send(&mut app, "hi"), vec![]);
    assert_eq!(app.input, "hi");
    assert_eq!(app.convo.len(), 2);
}

#[test]
fn sending_starts_a_new_reply() {
    let mut app = chat(&["a"]);
    app.apply(0, token("old"));
    send(&mut app, "go on");
    app.apply(0, token("new"));
    assert_eq!(lines(&app)[1..], ["old", "go on", "new"]);
}

#[test]
fn help_names_the_commands() {
    let mut app = chat(&["a"]);
    for line in ["/", "/help", "/?", "/HELP me"] {
        assert_eq!(send(&mut app, line), vec![]);
    }
    assert_eq!(
        lines(&app)[1..],
        ["commands: /help · /tools · /mode · /clear · /forget · /quit"; 4]
    );
    let mut team = chat(&["a", "b"]);
    send(&mut team, "/help");
    assert_eq!(
        lines(&team)[1],
        "commands: /help · /tools · /mode · /clear · /forget · /quit · @name to address one agent, bare message broadcasts to all"
    );
}

#[test]
fn tools_are_listed_per_agent() {
    let mut app = chat(&["a", "b"]);
    app.sessions[1].tools = vec![s("grep"), s("ls")];
    assert_eq!(send(&mut app, "/tools"), vec![]);
    assert_eq!(
        lines(&app)[1..],
        ["a: no tools reported.", "b (2 tools): grep, ls"]
    );
}

#[test]
fn mode_is_shown_and_set() {
    let mut app = chat(&["a", "b"]);
    assert_eq!(send(&mut app, "/mode"), vec![]);
    assert_eq!(
        lines(&app)[1],
        "permission mode: default — set with /mode default | accept-edits | bypass | plan"
    );
    app.sessions[1].alive = false;
    let set = |session| Action::Send {
        session,
        input: ChatInput::SetMode {
            mode: s("accept_edits"),
        },
    };
    assert_eq!(send(&mut app, " /Mode   accept-edits "), vec![set(0), set(1)]);
    assert_eq!(app.mode, "default");
    assert_eq!(app.convo.len(), 2);
}

#[test]
fn clear_and_forget_wipe_the_window() {
    for (line, said, told) in [
        ("/clear", "conversation cleared.", 0),
        ("/forget", "memory cleared — every agent starts fresh.", 2),
    ] {
        let mut app = chat(&["a", "b"]);
        app.apply(0, token("x"));
        app.apply(
            1,
            ChatEvent::ToolCall {
                name: s("t"),
                args: s(""),
            },
        );
        let actions = send(&mut app, line);
        assert_eq!(actions.len(), told);
        for (i, a) in actions.iter().enumerate() {
            assert_eq!(
                *a,
                Action::Send {
                    session: i,
                    input: ChatInput::Forget
                }
            );
        }
        assert_eq!(lines(&app), vec![said]);
        assert_eq!(app.sessions[0].cur, None);
        assert!(app.sessions[1].activity.is_empty());
        app.apply(0, token("y"));
        assert_eq!(lines(&app), vec![said, "y"]);
    }
}

#[test]
fn quit_ends_every_session() {
    for line in ["/quit", "/exit now"] {
        let mut app = chat(&["a", "b"]);
        let quit = |session| Action::Send {
            session,
            input: ChatInput::Quit,
        };
        assert_eq!(
            send(&mut app, line),
            vec![quit(0), quit(1), Action::Close]
        );
        assert!(!app.any_alive());
        assert_eq!(send(&mut app, "hello?"), vec![]);
    }
}

#[test]
fn unknown_commands_are_reported() {
    let mut app = chat(&["a"]);
    assert_eq!(send(&mut app, "/Frob x"), vec![]);
    assert_eq!(send(&mut app, "/ÄÖ"), vec![]);
    assert_eq!(
        lines(&app)[1..],
        [
            "unknown command `/frob` — try /help",
            "unknown command `/äö` — try /help"
        ]
    );
    let mut other = chat(&["a"]);
    assert_eq!(other.run_named("Help", ""), vec![]);
    assert_eq!(lines(&other)[1], "unknown command `/Help` — try /help");
}

#[test]
fn requests_are_answered_once() {
    let mut app = chat(&["a", "b"]);
    app.apply(
        1,
        ChatEvent::PermissionRequest {
            id: s("r7"),
            tool: s("rm"),
            detail: s("all of it"),
        },
    );
    let actions = app.dispatch(Clicks {
        decisions: vec![(0, true), (1, false), (1, true)],
        ..nothing()
    });
    assert_eq!(
        actions,
        vec![Action::Send {
            session: 1,
            input: ChatInput::Permission {
                id: s("r7"),
                allow: false
            }
        }]
    );
    assert!(app.sessions[1].pending.is_none());
    assert_eq!(app.sessions[1].activity.len(), 1);
    assert_eq!(app.sessions[1].activity[0].summary, "[denied] rm");
    assert!(app.sessions[0].activity.is_empty());
    assert_eq!(app.decide(1, true), None);
}

#[test]
fn an_allowed_tool_is_logged() {
    let mut app = chat(&["a"]);
    app.apply(
        0,
        ChatEvent::PermissionRequest {
            id: s("1"),
            tool: s("ls"),
            detail: s(""),
        },
    );
    assert!(app.decide(0, true).is_some());
    assert_eq!(app.sessions[0].activity[0].summary, "[allowed] ls");
}

#[test]
fn clicks_go_before_the_input_line() {
    let mut app = chat(&["a"]);
    app.input = s("typed");
    let actions = app.dispatch(Clicks {
        command: Some(5),
        send: true,
        ..nothing()
    });
    assert_eq!(actions.last(), Some(&Action::Close));
    assert_eq!(app.input, "");

    let mut app = chat(&["a"]);
    app.input = s("@x");
    let actions = app.dispatch(Clicks {
        pick: Some(s("@xena ")),
        ..nothing()
    });
    assert_eq!(actions, vec![]);
    assert_eq!(app.input, "@xena ");
    assert_eq!(app.repaint_after(), 120);
}

#[test]
fn every_listed_command_is_known() {
    for i in 0..6 {
        let mut app = chat(&["a"]);
        app.run_listed(i);
        assert!(!lines(&app).iter().any(|l| l.contains("unknown command")));
    }
}

#[test]
fn the_order_of_agents_does_not_matter() {
    let mut one = chat(&["a", "b"]);
    let mut two = chat(&["a", "b"]);
    for app in [&mut one, &mut two] {
        app.apply(0, token("x"));
        app.apply(1, token("y"));
    }
    one.apply(0, token("1"));
    one.apply(1, ChatEvent::Message { text: s("2") });
    two.apply(1, ChatEvent::Message { text: s("2") });
    two.apply(0, token("1"));
    assert_eq!(lines(&one), lines(&two));
    assert_eq!(lines(&one)[1..], ["x1", "2"]);
}

#[test]
fn an_ended_session_stays_ended() {
    let mut app = chat(&["a", "b"]);
    app.apply(0, ChatEvent::Bye);
    app.apply(
        0,
        ChatEvent::Ready {
            model: s("m"),
            backend: s("b"),
            tools: vec![],
        },
    );
    assert_eq!(send(&mut app, "@a hi"), vec![]);
    for line in ["hi", "/clear", "/tools", "/forget", "/mode plan"] {
        send(&mut app, line);
        assert!(!app.sessions[0].alive);
        assert!(app.sessions[1].alive);
    }
    assert_eq!(app.decide(0, true), None);
    assert!(!app.sessions[0].alive);
}
