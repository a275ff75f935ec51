//! The personal assistant: an agent of its own in the user's home directory.

use vstd::prelude::*;

verus! {

/// The assistant's directory, below the home directory.
pub const PERSONAL_DIR: &'static str = ".bwoc/personal";

/// The file that holds the system prompt, below the assistant's directory. The assistant exists when
/// this file does.
pub const PROMPT_FILE: &'static str = "AGENTS.md";

/// System prompt of a new assistant.
pub const PERSONAL_SYSTEM_PROMPT: &'static str = "You are the user's personal assistant. Be concise, friendly, and genuinely\nhelpful. You can read files and run small tasks when asked; always ask before\ndoing anything destructive or irreversible.";

/// Tool policy of a new assistant: read freely, ask before writing or running.
pub const PERSONAL_POLICY: &'static str = "default_mode = \"ask\"\n\n[tools]\nread_file = \"allow\"\nlist_dir = \"allow\"\ngrep = \"allow\"\n";

/// A step of setting the assistant up. Paths are below the assistant's directory.
#[derive(Debug)]
pub enum SeedStep {
    /// Create the directory `dir` and those above it.
    CreateDir { dir: &'static str },
    /// Write `text` to `file`, which messages call `name`.
    Write { file: &'static str, name: &'static str, text: &'static str },
}

/// A [`SeedStep`] as a mathematical value.
pub enum SeedStepView {
    CreateDir { dir: Seq<char> },
    Write { file: Seq<char>, name: Seq<char>, text: Seq<char> },
}

impl View for SeedStep {
    type V = SeedStepView;

    open spec fn view(&self) -> SeedStepView {
        match *self {
            SeedStep::CreateDir { dir } => SeedStepView::CreateDir { dir: dir@ },
            SeedStep::Write { file, name, text } => SeedStepView::Write {
                file: file@,
                name: name@,
                text: text@,
            },
        }
    }
}

/// The steps that set a new assistant up.
pub open spec fn seeding() -> Seq<SeedStepView> {
    seq![
        SeedStepView::CreateDir { dir: ".bwoc"@ },
        SeedStepView::Write {
            file: PROMPT_FILE@,
            name: "AGENTS.md"@,
            text: PERSONAL_SYSTEM_PROMPT@,
        },
        SeedStepView::Write {
            file: ".bwoc/harness-policy.toml"@,
            name: "harness-policy.toml"@,
            text: PERSONAL_POLICY@,
        },
    ]
}

/// The steps that set the assistant up, in order; none if its prompt file is there.
pub fn ensure_personal_agent(has_prompt: bool) -> (steps: Vec<SeedStep>)
    ensures
        steps@.map_values(|s: SeedStep| s@) == if has_prompt {
            Seq::empty()
        } else {
            seeding()
        },
{
    let mut steps: Vec<SeedStep> = Vec::new();
    if !has_prompt {
        steps.push(SeedStep::CreateDir { dir: ".bwoc" });
        steps.push(
            SeedStep::Write {
                file: PROMPT_FILE,
                name: "AGENTS.md",
                text: PERSONAL_SYSTEM_PROMPT,
            },
        );
        steps.push(
            SeedStep::Write {
                file: ".bwoc/harness-policy.toml",
                name: "harness-policy.toml",
                text: PERSONAL_POLICY,
            },
        );
        assert(steps@.map_values(|s: SeedStep| s@) =~= seeding());
    } else {
        assert(steps@.map_values(|s: SeedStep| s@) =~= Seq::empty());
    }
    steps
}

/// A new assistant gets its directory first, then the prompt, in the very file by which it is known to
/// exist, and the policy.
pub proof fn law_assistant_is_seeded()
    ensures
        seeding().len() == 3,
        seeding()[0] == (SeedStepView::CreateDir { dir: ".bwoc"@ }),
        seeding()[1] == (SeedStepView::Write {
            file: PROMPT_FILE@,
            name: "AGENTS.md"@,
            text: PERSONAL_SYSTEM_PROMPT@,
        }),
        seeding()[2] == (SeedStepView::Write {
            file: ".bwoc/harness-policy.toml"@,
            name: "harness-policy.toml"@,
            text: PERSONAL_POLICY@,
        }),
{
}

} // verus!
