use bwoc_chat::chat::ChatApp;
use bwoc_chat::colour::{palette, Rgba};
use bwoc_chat::command::COMMANDS;
use bwoc_chat::complete::{DirItem, Suggestion};
use bwoc_chat::config::AgentConfig;
use bwoc_chat::frame::Clicks;
use bwoc_chat::protocol::{Action, ChatEvent, ChatInput};
use bwoc_chat::screen::{command_label, ActivityRow};
use bwoc_chat::session::AgentSession;

const AMBER: Rgba = Rgba {
    r: 0xE0,
    g: 0xA0,
    b: 0x30,
    a: 255,
};

const GRAY: Rgba = Rgba {
    r: 160,
    g: 160,
    b: 160,
    a: 255,
};

fn chat(ids: &[&str]) -> ChatApp {
    let mut sessions = Vec::new();
    for (i, id) in ids.iter().enumerate() {
        let cfg = AgentConfig {
            agent_id: id.to_string(),
            agent_path: (),
            backend: "b".to_string(),
            model: "m".to_string(),
            endpoint: "e".to_string(),
        };
        sessions.push(AgentSession::new(&cfg, palette(i)));
    }
    ChatApp::new(sessions)
}

fn entry(name: &str, is_dir: bool) -> DirItem {
    DirItem {
        name: name.to_string(),
        is_dir,
    }
}

fn labels(rows: &[Suggestion]) -> Vec<&str> {
    rows.iter().map(|r| r.label.as_str()).collect()
}

fn call(args: &str) -> ChatEvent {
    ChatEvent::ToolCall {
        name: "t".to_string(),
        args: args.to_string(),
    }
}

#[test]
fn the_badge_warns_of_relaxed_modes() {
    let mut app = chat(&["a"]);
    assert_eq!(app.mode_badge(), ("[default]".to_string(), GRAY));
    app.mode = "bypass".to_string();
    assert_eq!(app.mode_badge(), ("[bypass]".to_string(), AMBER));
}

#[test]
fn one_chip_per_agent() {
    let mut app = chat(&["agent-ada", "bob"]);
    app.sessions[1].busy = true;
    let chips = app.status_chips();
    assert_eq!(chips.len(), 2);
    assert_eq!(chips[0].name, "ada");
    assert_eq!(chips[0].color, palette(0));
    assert_eq!(chips[0].status, "m · b · connecting…");
    assert!(!chips[0].busy && chips[1].busy);
}

#[test]
fn activity_is_grouped_in_a_team() {
    let mut app = chat(&["agent-ada", "bob", "cyd"]);
    assert!(matches!(
        app.activity_panel().as_slice(),
        [ActivityRow::Note { text }] if text == "(no tool activity yet)"
    ));
    app.apply(0, call("x"));
    app.apply(0, call("p\nq"));
    app.apply(2, call("p\nq"));
    let rows = app.activity_panel();
    assert_eq!(rows.len(), 7);
    assert!(matches!(&rows[0], ActivityRow::Heading { name, .. } if name == "ada"));
    assert!(matches!(&rows[1], ActivityRow::Flat { text } if text == "» t x"));
    assert!(matches!(&rows[2],
        ActivityRow::Fold { salt: 2, summary, body } if summary == "» t p q" && body == "p\nq"));
    assert!(matches!(&rows[3], ActivityRow::Gap));
    assert!(matches!(&rows[4], ActivityRow::Heading { name, color } if name == "cyd" && *color == palette(2)));
    assert!(matches!(&rows[5], ActivityRow::Fold { salt: 3, .. }));
    assert!(matches!(&rows[6], ActivityRow::Gap));
}

#[test]
fn a_single_agent_needs_no_heading() {
    let mut app = chat(&["a"]);
    app.apply(0, call("x"));
    let rows = app.activity_panel();
    assert_eq!(rows.len(), 1);
    assert!(matches!(&rows[0], ActivityRow::Flat { .. }));
}

#[test]
fn requests_are_shown() {
    let ask = || ChatEvent::PermissionRequest {
        id: "1".to_string(),
        tool: "rm".to_string(),
        detail: format!("a\n{}", "d".repeat(130)),
    };
    let mut app = chat(&["agent-ada"]);
    assert!(app.permission_rows().is_empty());
    app.apply(0, ask());
    let rows = app.permission_rows();
    assert_eq!(rows.len(), 1);
    assert_eq!(rows[0].label, "permission: rm ");
    assert_eq!(rows[0].color, AMBER);
    assert_eq!(rows[0].detail, format!("a {}…", "d".repeat(118)));

    let mut team = chat(&["agent-ada", "agent-bob"]);
    team.apply(1, ask());
    let rows = team.permission_rows();
    assert_eq!(rows.len(), 1);
    assert_eq!(rows[0].session, 1);
    assert_eq!(rows[0].label, "permission [bob]: rm ");
}

#[test]
fn commands_are_filtered_by_what_is_typed() {
    let mut app = chat(&["a"]);
    assert_eq!(app.command_matches(), None);
    app.input = "/".to_string();
    assert_eq!(app.command_matches(), Some(vec![0, 1, 2, 3, 4, 5]));
    app.input = "/t".to_string();
    assert_eq!(app.command_matches(), Some(vec![1]));
    app.input = "/T".to_string();
    assert_eq!(app.command_matches(), Some(vec![]));
    app.input = " /t".to_string();
    assert_eq!(app.command_matches(), None);
    assert_eq!(command_label(5), "/quit  —  close the window");
    assert_eq!(
        COMMANDS[2],
        (
            "/mode",
            "permission mode: default | accept-edits | bypass | plan"
        )
    );
}

#[test]
fn the_hint_fits_the_window() {
    let mut app = chat(&["a"]);
    assert_eq!(app.input_hint(), "message…  (/help for commands)");
    app.sessions[0].alive = false;
    assert_eq!(app.input_hint(), "(all sessions ended)");
    assert_eq!(
        chat(&["a", "b"]).input_hint(),
        "message all…  (@name to target · /help)"
    );
}

#[test]
fn lines_are_tagged_by_speaker() {
    let mut app = chat(&["agent-ada", "agent-bob"]);
    app.apply(
        1,
        ChatEvent::Token {
            text: "hi".to_string(),
        },
    );
    app.input = "yo".to_string();
    app.send_user();
    let style = app.line_style(0);
    assert_eq!((style.tag.as_str(), style.color, style.markdown), ("·", GRAY, false));
    let style = app.line_style(1);
    assert_eq!(
        (style.tag.as_str(), style.color, style.markdown),
        ("bob", palette(1), true)
    );
    let style = app.line_style(2);
    let blue = Rgba {
        r: 0x6C,
        g: 0xB6,
        b: 0xFF,
        a: 255,
    };
    assert_eq!((style.tag.as_str(), style.color, style.markdown), ("you", blue, false));
}

#[test]
fn completions_list_agents_then_files() {
    let app = chat(&["agent-Bob", "agent-ann", "agent-bea"]);
    let items = vec![
        entry("beta", true),
        entry("Banana", false),
        entry(".bashrc", false),
        entry("alpha", false),
        entry("b", false),
    ];
    let rows = app.at_suggestions("B", &items);
    assert_eq!(
        labels(&rows),
        vec![
            "@Bob  (agent)",
            "@bea  (agent)",
            "Banana  (file)",
            "b  (file)",
            "beta/  (file)"
        ]
    );
    assert_eq!(rows[0].insert, "@Bob ");
    assert_eq!(rows[2].insert, "Banana ");
    assert_eq!(rows[4].insert, "beta/");
    assert_eq!(app.at_suggestions("zz", &items), vec![]);
}

#[test]
fn a_single_agent_is_not_completed() {
    let app = chat(&["agent-bob"]);
    assert_eq!(app.at_suggestions("b", &vec![]), vec![]);
}

#[test]
fn lower_case_is_unicodes() {
    let app = chat(&["ÄRA", "ära2"]);
    assert_eq!(
        labels(&app.at_suggestions("äR", &vec![entry("ÄRGER", false)])),
        vec!["@ÄRA  (agent)", "@ära2  (agent)", "ÄRGER  (file)"]
    );
}

#[test]
fn completions_are_capped_and_sorted() {
    let app = chat(&["a", "b"]);
    let mut items = Vec::new();
    for n in (0..40).rev() {
        items.push(entry(&format!("f{:02}", n), false));
    }
    let rows = app.at_suggestions("f", &items);
    assert_eq!(rows.len(), 12);
    for (n, row) in rows.iter().enumerate() {
        assert_eq!(row.label, format!("f{:02}  (file)", n));
    }
    let names: Vec<String> = (0..20).map(|n| format!("f{}", n)).collect();
    let crowd = chat(&names.iter().map(|n| n.as_str()).collect::<Vec<_>>());
    let rows = crowd.at_suggestions("", &items);
    assert_eq!(rows.len(), 12);
    assert_eq!(rows[11].label, "@f11  (agent)");
}

#[test]
fn equal_labels_keep_their_order() {
    let app = chat(&["q"]);
    let items = vec![entry("a/", false), entry("a", true), entry("a/", false)];
    let inserts: Vec<String> = app
        .at_suggestions("a", &items)
        .into_iter()
        .map(|r| r.insert)
        .collect();
    assert_eq!(inserts, vec!["a/ ", "a/", "a/ "]);
}

#[test]
fn names_in_lower_case_are_taken_as_given() {
    let app = chat(&["agent-Ann", "agent-Bob"]);
    let rows = app.suggest(
        "x",
        &vec!["xa".to_string(), "b".to_string()],
        &vec![entry("F", true)],
        &vec!["xf".to_string()],
    );
    assert_eq!(labels(&rows), vec!["@Ann  (agent)", "F/  (file)"]);
}

#[test]
fn a_picked_completion_addresses_its_agent() {
    let mut app = chat(&["agent-ada", "agent-bob"]);
    app.input = "@B".to_string();
    assert_eq!(chat(&["a"]).completions(&vec![]), None);
    let rows = app.completions(&vec![]).unwrap();
    let none = Clicks {
        pick: Some(rows[0].insert.clone()),
        command: None,
        send: false,
        decisions: vec![],
    };
    app.dispatch(none);
    app.input.push_str(" do it ");
    assert_eq!(
        app.submit(),
        vec![Action::Send {
            session: 1,
            input: ChatInput::User {
                text: "do it".to_string()
            }
        }]
    );
}
