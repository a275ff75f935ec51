use bwoc_chat::config::{
    harness_args, resolve_workspace_agent, resolve_workspace_agents, AgentConfig, HarnessArg,
    Manifest, RegistryEntry,
};
use bwoc_chat::launch::{
    choose_workspace, resolve_workspace, parse_args, resolve, usage_error, Launch, Overrides,
};
use bwoc_chat::personal::{ensure_personal_agent, SeedStep, PERSONAL_POLICY, PERSONAL_SYSTEM_PROMPT};

fn args(list: &[&str]) -> Vec<String> {
    list.iter().map(|s| s.to_string()).collect()
}

#[test]
fn no_arguments_start_the_assistant() {
    match resolve(&args(&[])).unwrap() {
        Launch::Personal { with } => {
            assert_eq!(with.model, None);
            assert_eq!(with.endpoint, None);
        }
        other => panic!("{:?}", other),
    }
}

#[test]
fn names_start_a_team() {
    match resolve(&args(&["ada", "--workspace", "/w", "agent-bob", "--model", "m"])).unwrap() {
        Launch::Named {
            names,
            workspace,
            with,
        } => {
            assert_eq!(names, args(&["ada", "agent-bob"]));
            assert_eq!(workspace.as_deref(), Some("/w"));
            assert_eq!(with.model.as_deref(), Some("m"));
        }
        other => panic!("{:?}", other),
    }
}

#[test]
fn directories_stand_alone() {
    match resolve(&args(&["--here", "--path", "/d", "--endpoint", "e"])).unwrap() {
        Launch::Dir { path, with } => {
            assert_eq!(path, "/d");
            assert_eq!(with.endpoint.as_deref(), Some("e"));
        }
        other => panic!("{:?}", other),
    }
    assert!(matches!(
        resolve(&args(&["."])).unwrap(),
        Launch::Here { .. }
    ));
    assert_eq!(
        resolve(&args(&["--path", "/d", "ada"])).unwrap_err(),
        "--path takes no agent name (single-agent mode)"
    );
    assert_eq!(
        resolve(&args(&["ada", "--here"])).unwrap_err(),
        "--here / . takes no agent name (single-agent mode)"
    );
}

#[test]
fn flags_take_the_next_argument() {
    let o = parse_args(&args(&["--model", "--here", "--workspace"])).unwrap();
    assert_eq!(o.model.as_deref(), Some("--here"));
    assert!(!o.here);
    assert_eq!(o.workspace, None);
    let o = parse_args(&args(&["--model", "a", "--model", "b"])).unwrap();
    assert_eq!(o.model.as_deref(), Some("b"));
    let o = parse_args(&args(&["--model", "a", "--model"])).unwrap();
    assert_eq!(o.model, None);
    assert_eq!(
        parse_args(&args(&["ada", "--frob", "--bad"])).unwrap_err(),
        "unknown flag `--frob`"
    );
    assert_eq!(parse_args(&args(&["--"])).unwrap_err(), "unknown flag `--`");
    let o = parse_args(&args(&["-x", "..", "."])).unwrap();
    assert_eq!(o.names, args(&["-x", ".."]));
    assert!(o.here);
}

#[test]
fn workspace_is_chosen_in_order() {
    assert_eq!(choose_workspace(Some(1), Some(2), Some(3)).unwrap(), 1);
    assert_eq!(choose_workspace(None, Some(2), Some(3)).unwrap(), 2);
    assert_eq!(choose_workspace(None, None, Some(3)).unwrap(), 3);
    assert_eq!(
        choose_workspace::<u8>(None, None, None).unwrap_err(),
        "no workspace found — pass --workspace / set BWOC_WORKSPACE / run from a \
         workspace, or run with no agent for the personal assistant (or --here for \
         the current directory)"
    );
    assert_eq!(resolve_workspace(&vec![false, true, true]), Some(1));
    assert_eq!(resolve_workspace(&vec![false, false]), None);
    assert_eq!(resolve_workspace(&vec![]), None);
}

#[test]
fn usage_is_printed_below_the_complaint() {
    assert_eq!(
        usage_error("boom"),
        "bwoc-chat: boom\n\n\
         usage: bwoc-chat [<agent>...] [--here | --path <dir>] [--workspace <dir>] \
         [--model <m>] [--endpoint <url>]\n\
         \x20 no agent      → personal assistant at ~/.bwoc/personal (created on first use)\n\
         \x20 --here / .    → the current directory, no workspace\n\
         \x20 --path <dir>  → that directory directly\n\
         \x20 <agent>       → a named agent from the workspace registry\n\
         \x20 <a> <b> <c>   → team chat: several agents in one window"
    );
}

fn registry() -> Vec<RegistryEntry> {
    [
        ("agent-ada", "ollama"),
        ("agent-bob", "codex"),
        ("agent-cyd", "anthropic"),
        ("agent-dee", "openai-compatible"),
        ("agent-ada", "codex"),
        ("plain", "ollama"),
    ]
    .iter()
    .map(|(id, backend)| RegistryEntry {
        id: id.to_string(),
        backend: backend.to_string(),
    })
    .collect()
}

#[test]
fn agents_are_found_by_either_spelling() {
    let r = registry();
    assert_eq!(resolve_workspace_agent("ada", "/w", &r), Ok(0));
    assert_eq!(resolve_workspace_agent("agent-ada", "/w", &r), Ok(0));
    assert_eq!(resolve_workspace_agent("dee", "/w", &r), Ok(3));
    assert_eq!(
        resolve_workspace_agent("plain", "/w", &r).unwrap_err(),
        "no agent named 'plain' in /w"
    );
}

#[test]
fn only_harness_backends_are_supported() {
    let r = registry();
    assert_eq!(
        resolve_workspace_agent("bob", "/w", &r).unwrap_err(),
        "agent 'agent-bob' uses the 'codex' backend — bwoc-chat renders the harness chat stream for \
         ollama / openai-compatible. Use `bwoc spawn` for other vendor CLIs."
    );
    assert_eq!(
        resolve_workspace_agent("cyd", "/w", &r).unwrap_err(),
        "agent 'agent-cyd' uses the 'anthropic' backend — bwoc-chat renders the harness chat stream \
         for ollama / openai-compatible. Use `bwoc spawn` for other vendor CLIs."
    );
}

#[test]
fn the_first_bad_name_is_fatal() {
    let r = registry();
    assert_eq!(
        resolve_workspace_agents(&args(&["dee", "ada", "dee"]), "/w", &r),
        Ok(vec![3, 0, 3])
    );
    assert_eq!(
        resolve_workspace_agents(&args(&["ada", "nobody", "bob"]), "/w", &r).unwrap_err(),
        "no agent named 'nobody' in /w"
    );
}

fn with(model: Option<&str>, endpoint: Option<&str>) -> Overrides {
    Overrides {
        model: model.map(|s| s.to_string()),
        endpoint: endpoint.map(|s| s.to_string()),
    }
}

#[test]
fn settings_come_from_line_manifest_default() {
    let entry = &registry()[3];
    let manifest = Some(Manifest {
        primary_model: "m1".to_string(),
        base_url: Some("u1".to_string()),
    });
    let cfg = AgentConfig::from_entry(entry, 7, &manifest, &with(Some("m0"), None));
    assert_eq!(cfg.agent_id, "agent-dee");
    assert_eq!(cfg.agent_path, 7);
    assert_eq!(cfg.backend, "openai-compatible");
    assert_eq!(cfg.model, "m0");
    assert_eq!(cfg.endpoint, "u1");

    let bare = Some(Manifest {
        primary_model: "m1".to_string(),
        base_url: None,
    });
    let cfg = AgentConfig::from_entry(entry, 7, &bare, &with(None, None));
    assert_eq!(cfg.model, "m1");
    assert_eq!(cfg.endpoint, "http://localhost:11434/v1");

    let cfg = AgentConfig::from_entry(entry, 7, &None, &with(None, Some("u0")));
    assert_eq!(cfg.model, "gemma4:latest");
    assert_eq!(cfg.endpoint, "u0");
}

#[test]
fn a_directory_is_an_agent() {
    let none = with(None, None);
    let cfg =
        AgentConfig::from_dir("/p/x", true, "/p/x", Some("x".to_string()), &None, &none).unwrap();
    assert_eq!(cfg.agent_id, "x");
    assert_eq!(cfg.agent_path, "/p/x");
    assert_eq!(cfg.backend, "ollama");
    let cfg = AgentConfig::from_dir("/", true, "/", None, &None, &none).unwrap();
    assert_eq!(cfg.agent_id, "agent");
    assert_eq!(
        AgentConfig::from_dir("/f", false, "/f", None, &None, &none).unwrap_err(),
        "not a directory: /f"
    );
}

#[test]
fn a_process_gets_its_settings() {
    let cfg = AgentConfig::from_entry(&registry()[0], "/a", &None, &with(Some("m"), Some("u")));
    let shown: Vec<String> = harness_args(&cfg)
        .into_iter()
        .map(|a| match a {
            HarnessArg::Text { text } => text,
            HarnessArg::Workdir => "<dir>".to_string(),
        })
        .collect();
    assert_eq!(
        shown,
        args(&[
            "--chat",
            "--unrestricted",
            "--workdir",
            "<dir>",
            "--backend",
            "ollama",
            "--model",
            "m",
            "--endpoint",
            "u"
        ])
    );
}

#[test]
fn the_assistant_is_set_up_once() {
    assert!(ensure_personal_agent(true).is_empty());
    let steps = ensure_personal_agent(false);
    assert_eq!(steps.len(), 3);
    assert!(matches!(steps[0], SeedStep::CreateDir { dir: ".bwoc" }));
    match &steps[1] {
        SeedStep::Write { file, name, text } => {
            assert_eq!((*file, *name), ("AGENTS.md", "AGENTS.md"));
            assert_eq!(*text, PERSONAL_SYSTEM_PROMPT);
        }
        other => panic!("{:?}", other),
    }
    match &steps[2] {
        SeedStep::Write { file, name, text } => {
            assert_eq!(
                (*file, *name),
                (".bwoc/harness-policy.toml", "harness-policy.toml")
            );
            assert_eq!(*text, PERSONAL_POLICY);
        }
        other => panic!("{:?}", other),
    }
    assert_eq!(
        PERSONAL_SYSTEM_PROMPT,
        "\
You are the user's personal assistant. Be concise, friendly, and genuinely
helpful. You can read files and run small tasks when asked; always ask before
doing anything destructive or irreversible."
    );
    assert_eq!(
        PERSONAL_POLICY,
        "\
default_mode = \"ask\"

[tools]
read_file = \"allow\"
list_dir = \"allow\"
grep = \"allow\"
"
    );
}
