//! From a command line to the agents to start.

use crate::text::{same, starts_with, texts};
use vstd::prelude::*;

verus! {

/// What the command line says.
#[derive(Debug)]
pub struct Options {
    /// The named agents.
    pub names: Vec<String>,
    pub workspace: Option<String>,
    pub model: Option<String>,
    pub endpoint: Option<String>,
    pub path: Option<String>,
    pub here: bool,
}

/// [`Options`] as a mathematical value.
#[verifier::ext_equal]
pub struct OptionsView {
    pub names: Seq<Seq<char>>,
    pub workspace: Option<Seq<char>>,
    pub model: Option<Seq<char>>,
    pub endpoint: Option<Seq<char>>,
    pub path: Option<Seq<char>>,
    pub here: bool,
}

/// The view of an optional string.
pub open spec fn text_of(s: Option<String>) -> Option<Seq<char>> {
    match s {
        Some(t) => Some(t@),
        None => None,
    }
}

impl View for Options {
    type V = OptionsView;

    open spec fn view(&self) -> OptionsView {
        OptionsView {
            names: texts(self.names@),
            workspace: text_of(self.workspace),
            model: text_of(self.model),
            endpoint: text_of(self.endpoint),
            path: text_of(self.path),
            here: self.here,
        }
    }
}

/// The argument at `i`, if there is one.
pub open spec fn arg_at(args: Seq<Seq<char>>, i: int) -> Option<Seq<char>> {
    if 0 <= i < args.len() {
        Some(args[i])
    } else {
        None
    }
}

/// No options.
pub open spec fn no_options() -> OptionsView {
    OptionsView {
        names: Seq::empty(),
        workspace: None,
        model: None,
        endpoint: None,
        path: None,
        here: false,
    }
}

/// `o` extended by the arguments from position `i` on, or the complaint about an unknown flag. A
/// flag that takes a value takes the next argument, whatever it is; at the end of the line it takes
/// none. Of two equal flags the later counts.
pub open spec fn parsed(args: Seq<Seq<char>>, i: int, o: OptionsView) -> Result<
    OptionsView,
    Seq<char>,
>
    decreases args.len() + 1 - i,
{
    if i < 0 || i >= args.len() {
        Ok(o)
    } else {
        let a = args[i];
        let value = arg_at(args, i + 1);
        if a == "--workspace"@ {
            parsed(args, i + 2, OptionsView { workspace: value, ..o })
        } else if a == "--model"@ {
            parsed(args, i + 2, OptionsView { model: value, ..o })
        } else if a == "--endpoint"@ {
            parsed(args, i + 2, OptionsView { endpoint: value, ..o })
        } else if a == "--path"@ {
            parsed(args, i + 2, OptionsView { path: value, ..o })
        } else if a == "--here"@ || a == "."@ {
            parsed(args, i + 1, OptionsView { here: true, ..o })
        } else if ("--"@).is_prefix_of(a) {
            Err("unknown flag `"@ + a + "`"@)
        } else {
            parsed(args, i + 1, OptionsView { names: o.names.push(a), ..o })
        }
    }
}

/// A result with a complaint, with both sides as mathematical values.
pub open spec fn options_result(r: Result<Options, String>) -> Result<OptionsView, Seq<char>> {
    match r {
        Ok(o) => Ok(o@),
        Err(e) => Err(e@),
    }
}

/// The argument at `i`, if there is one.
fn value_at(args: &Vec<String>, i: usize) -> (value: Option<String>)
    ensures
        text_of(value) == arg_at(texts(args@), i as int),
{
    if i < args.len() {
        Some(args[i].clone())
    } else {
        None
    }
}

/// Read the command line.
pub fn parse_args(args: &Vec<String>) -> (out: Result<Options, String>)
    ensures
        options_result(out) == parsed(texts(args@), 0, no_options()),
{
    let mut o = Options {
        names: Vec::new(),
        workspace: None,
        model: None,
        endpoint: None,
        path: None,
        here: false,
    };
    let ghost all = texts(args@);
    let ghost want = parsed(all, 0, no_options());
    let mut i: usize = 0;
    assert(o@ =~= no_options());
    while i < args.len()
        invariant
            i <= args@.len(),
            all == texts(args@),
            want == parsed(all, 0, no_options()),
            want == parsed(all, i as int, o@),
        decreases args.len() - i,
    {
        let a = args[i].as_str();
        let ghost before = o@;
        assert(all[i as int] == a@);
        if same(a, "--workspace") || same(a, "--model") || same(a, "--endpoint") || same(
            a,
            "--path",
        ) {
            let value = value_at(args, i + 1);
            if same(a, "--workspace") {
                o.workspace = value;
            } else if same(a, "--model") {
                o.model = value;
            } else if same(a, "--endpoint") {
                o.endpoint = value;
            } else {
                o.path = value;
            }
            proof {
                lemma_parsed_end(all, i + 2, o@);
                lemma_parsed_end(all, i + 1, o@);
            }
            i = if args.len() - i >= 2 {
                i + 2
            } else {
                i + 1
            };
        } else if same(a, "--here") || same(a, ".") {
            o.here = true;
            i += 1;
        } else if starts_with(a, "--") {
            let mut e = "unknown flag `".to_owned();
            e.append(a);
            e.append("`");
            return Err(e);
        } else {
            o.names.push(a.to_owned());
            assert(o@.names =~= before.names.push(a@));
            i += 1;
        }
    }
    Ok(o)
}

proof fn lemma_parsed_end(args: Seq<Seq<char>>, i: int, o: OptionsView)
    ensures
        i >= args.len() ==> parsed(args, i, o) == Ok::<OptionsView, Seq<char>>(o),
{
}

/// Model and endpoint from the command line, which go before everything else.
#[derive(Debug)]
pub struct Overrides {
    pub model: Option<String>,
    pub endpoint: Option<String>,
}

/// [`Overrides`] as a mathematical value.
pub struct OverridesView {
    pub model: Option<Seq<char>>,
    pub endpoint: Option<Seq<char>>,
}

impl View for Overrides {
    type V = OverridesView;

    open spec fn view(&self) -> OverridesView {
        OverridesView { model: text_of(self.model), endpoint: text_of(self.endpoint) }
    }
}

/// Which agents to start.
#[derive(Debug)]
pub enum Launch {
    /// The agent in the directory `path`.
    Dir { path: String, with: Overrides },
    /// The agent in the current directory.
    Here { with: Overrides },
    /// The personal assistant.
    Personal { with: Overrides },
    /// The named agents of a workspace; `workspace` is the one that the command line names.
    Named { names: Vec<String>, workspace: Option<String>, with: Overrides },
}

/// A [`Launch`] as a mathematical value.
pub enum LaunchView {
    Dir { path: Seq<char>, with: OverridesView },
    Here { with: OverridesView },
    Personal { with: OverridesView },
    Named { names: Seq<Seq<char>>, workspace: Option<Seq<char>>, with: OverridesView },
}

impl View for Launch {
    type V = LaunchView;

    open spec fn view(&self) -> LaunchView {
        match *self {
            Launch::Dir { path, with } => LaunchView::Dir { path: path@, with: with@ },
            Launch::Here { with } => LaunchView::Here { with: with@ },
            Launch::Personal { with } => LaunchView::Personal { with: with@ },
            Launch::Named { names, workspace, with } => LaunchView::Named {
                names: texts(names@),
                workspace: text_of(workspace),
                with: with@,
            },
        }
    }
}

/// Which agents the options ask for: a directory first, then the current directory, neither of them
/// together with a name; then the named agents, and with no name the personal assistant.
pub open spec fn planned(o: OptionsView) -> Result<LaunchView, Seq<char>> {
    let with = OverridesView { model: o.model, endpoint: o.endpoint };
    if o.path is Some {
        if o.names.len() > 0 {
            Err("--path takes no agent name (single-agent mode)"@)
        } else {
            Ok(LaunchView::Dir { path: o.path->0, with })
        }
    } else if o.here {
        if o.names.len() > 0 {
            Err("--here / . takes no agent name (single-agent mode)"@)
        } else {
            Ok(LaunchView::Here { with })
        }
    } else if o.names.len() == 0 {
        Ok(LaunchView::Personal { with })
    } else {
        Ok(LaunchView::Named { names: o.names, workspace: o.workspace, with })
    }
}

/// A result with a complaint, with both sides as mathematical values.
pub open spec fn launch_result(r: Result<Launch, String>) -> Result<LaunchView, Seq<char>> {
    match r {
        Ok(l) => Ok(l@),
        Err(e) => Err(e@),
    }
}

/// Decide which agents the options ask for.
pub fn plan(o: Options) -> (out: Result<Launch, String>)
    ensures
        launch_result(out) == planned(o@),
{
    let Options { names, workspace, model, endpoint, path, here } = o;
    let with = Overrides { model, endpoint };
    if let Some(dir) = path {
        if names.len() > 0 {
            return Err("--path takes no agent name (single-agent mode)".to_owned());
        }
        return Ok(Launch::Dir { path: dir, with });
    }
    if here {
        if names.len() > 0 {
            return Err("--here / . takes no agent name (single-agent mode)".to_owned());
        }
        return Ok(Launch::Here { with });
    }
    if names.len() == 0 {
        return Ok(Launch::Personal { with });
    }
    Ok(Launch::Named { names, workspace, with })
}

/// Which agents a command line asks for.
pub open spec fn resolved(args: Seq<Seq<char>>) -> Result<LaunchView, Seq<char>> {
    match parsed(args, 0, no_options()) {
        Ok(o) => planned(o),
        Err(e) => Err(e),
    }
}

/// Read the command line and decide which agents it asks for.
///
/// - no name, no directory: the personal assistant
/// - `--here`, `.` or `--path <dir>`: that directory directly, one agent only
/// - one name: that agent of the workspace
/// - several names: team chat, every named agent in one window
pub fn resolve(args: &Vec<String>) -> (out: Result<Launch, String>)
    ensures
        launch_result(out) == resolved(texts(args@)),
{
    match parse_args(args) {
        Ok(o) => plan(o),
        Err(e) => Err(e),
    }
}

/// What a run without any workspace is told.
pub open spec fn no_workspace() -> Seq<char> {
    "no workspace found — pass --workspace / set BWOC_WORKSPACE / run from a workspace, or run with no agent for the personal assistant (or --here for the current directory)"@
}

/// Choose the workspace: the one of the command line, else the one of the environment, else the
/// nearest one above the current directory.
pub fn choose_workspace<P>(flag: Option<P>, env: Option<P>, above: Option<P>) -> (out: Result<
    P,
    String,
>)
    ensures
        flag is Some ==> out == Ok::<P, String>(flag->0),
        flag is None && env is Some ==> out == Ok::<P, String>(env->0),
        flag is None && env is None && above is Some ==> out == Ok::<P, String>(above->0),
        flag is None && env is None && above is None ==> out is Err && out->Err_0@
            == no_workspace(),
{
    if let Some(p) = flag {
        return Ok(p);
    }
    if let Some(p) = env {
        return Ok(p);
    }
    if let Some(p) = above {
        return Ok(p);
    }
    Err(
        "no workspace found — pass --workspace / set BWOC_WORKSPACE / run from a workspace, or run with no agent for the personal assistant (or --here for the current directory)".to_owned(),
    )
}

/// The nearest directory that is a workspace. `marked` says of the current directory and then of
/// each directory above it whether it holds the workspace file.
pub fn resolve_workspace(marked: &Vec<bool>) -> (at: Option<usize>)
    ensures
        at is Some <==> marked@.contains(true),
        at is Some ==> at->0 < marked@.len() && marked@[at->0 as int],
        at is Some ==> forall|j: int| 0 <= j < at->0 ==> !(#[trigger] marked@[j]),
{
    let mut i: usize = 0;
    while i < marked.len()
        invariant
            i <= marked@.len(),
            forall|j: int| 0 <= j < i ==> !(#[trigger] marked@[j]),
        decreases marked.len() - i,
    {
        if marked[i] {
            assert(marked@[i as int]);
            return Some(i);
        }
        i += 1;
    }
    None
}

/// How the program is called.
pub const USAGE: &'static str = "usage: bwoc-chat [<agent>...] [--here | --path <dir>] [--workspace <dir>] [--model <m>] [--endpoint <url>]\n  no agent      → personal assistant at ~/.bwoc/personal (created on first use)\n  --here / .    → the current directory, no workspace\n  --path <dir>  → that directory directly\n  <agent>       → a named agent from the workspace registry\n  <a> <b> <c>   → team chat: several agents in one window";

/// What a run that cannot start prints.
pub fn usage_error(complaint: &str) -> (out: String)
    ensures
        out@ == "bwoc-chat: "@ + complaint@ + "\n\n"@ + USAGE@,
{
    let mut out = "bwoc-chat: ".to_owned();
    out.append(complaint);
    out.append("\n\n");
    out.append(USAGE);
    out
}

// ---------------------------------------------------------------------------
// Laws
// ---------------------------------------------------------------------------

/// Whether an argument is an agent's name where no flag takes it.
pub open spec fn is_name(a: Seq<char>) -> bool {
    !("--"@).is_prefix_of(a) && a != "."@
}

proof fn lemma_names_parsed(args: Seq<Seq<char>>, i: int, o: OptionsView)
    requires
        0 <= i <= args.len(),
        forall|k: int| i <= k < args.len() ==> is_name(#[trigger] args[k]),
    ensures
        parsed(args, i, o) == Ok::<OptionsView, Seq<char>>(
            OptionsView { names: o.names + args.skip(i), ..o },
        ),
    decreases args.len() - i,
{
    if i < args.len() {
        let a = args[i];
        let next = OptionsView { names: o.names.push(a), ..o };
        reveal_strlit("--");
        reveal_strlit("--workspace");
        reveal_strlit("--model");
        reveal_strlit("--endpoint");
        reveal_strlit("--path");
        reveal_strlit("--here");
        assert(is_name(a));
        assert("--workspace"@.subrange(0, 2) =~= "--"@);
        assert("--model"@.subrange(0, 2) =~= "--"@);
        assert("--endpoint"@.subrange(0, 2) =~= "--"@);
        assert("--path"@.subrange(0, 2) =~= "--"@);
        assert("--here"@.subrange(0, 2) =~= "--"@);
        lemma_names_parsed(args, i + 1, next);
        assert(o.names + args.skip(i) =~= next.names + args.skip(i + 1));
    } else {
        assert(o.names + args.skip(i) =~= o.names);
    }
}

/// A command line of names alone starts exactly those agents, in that order, from the workspace.
pub proof fn law_names_start_agents(args: Seq<Seq<char>>)
    requires
        args.len() > 0,
        forall|k: int| 0 <= k < args.len() ==> is_name(#[trigger] args[k]),
    ensures
        resolved(args) == Ok::<LaunchView, Seq<char>>(
            LaunchView::Named {
                names: args,
                workspace: None,
                with: OverridesView { model: None, endpoint: None },
            },
        ),
{
    lemma_names_parsed(args, 0, no_options());
    assert(no_options().names + args.skip(0) =~= args);
}

/// An empty command line starts the personal assistant.
pub proof fn law_no_arguments_start_assistant()
    ensures
        resolved(Seq::empty()) == Ok::<LaunchView, Seq<char>>(
            LaunchView::Personal { with: OverridesView { model: None, endpoint: None } },
        ),
{
}

/// A directory, given or current, stands for a single agent: it never goes together with a name.
pub proof fn law_directory_takes_no_name(o: OptionsView)
    requires
        o.path is Some || o.here,
    ensures
        planned(o) is Ok <==> o.names.len() == 0,
        planned(o) is Ok ==> planned(o)->Ok_0 is Dir || planned(o)->Ok_0 is Here,
        planned(o) is Ok && o.path is Some ==> planned(o)->Ok_0 is Dir,
{
}

proof fn lemma_parsed_skip(args: Seq<Seq<char>>, i: int, j: int, o: OptionsView)
    requires
        0 <= i <= args.len(),
        0 <= j,
    ensures
        parsed(args, i + j, o) == parsed(args.skip(i), j, o),
    decreases args.len() + 1 - (i + j),
{
    let rest = args.skip(i);
    if i + j < args.len() {
        let a = args[i + j];
        let value = arg_at(args, i + j + 1);
        assert(rest[j] == a);
        assert(arg_at(rest, j + 1) == value);
        lemma_parsed_skip(args, i, j + 2, OptionsView { workspace: value, ..o });
        lemma_parsed_skip(args, i, j + 2, OptionsView { model: value, ..o });
        lemma_parsed_skip(args, i, j + 2, OptionsView { endpoint: value, ..o });
        lemma_parsed_skip(args, i, j + 2, OptionsView { path: value, ..o });
        lemma_parsed_skip(args, i, j + 1, OptionsView { here: true, ..o });
        lemma_parsed_skip(args, i, j + 1, OptionsView { names: o.names.push(a), ..o });
    }
}

proof fn lemma_flags_differ()
    ensures
        "--workspace"@ != "--model"@ && "--workspace"@ != "--endpoint"@,
        "--workspace"@ != "--path"@ && "--workspace"@ != "--here"@ && "--workspace"@ != "."@,
        "--model"@ != "--endpoint"@ && "--model"@ != "--path"@,
        "--model"@ != "--here"@ && "--model"@ != "."@,
        "--endpoint"@ != "--path"@ && "--endpoint"@ != "--here"@ && "--endpoint"@ != "."@,
        "--path"@ != "--here"@ && "--path"@ != "."@,
{
    reveal_strlit("--workspace");
    reveal_strlit("--model");
    reveal_strlit("--endpoint");
    reveal_strlit("--path");
    reveal_strlit("--here");
    reveal_strlit(".");
    assert("--workspace"@.len() == 11 && "--model"@.len() == 7 && "--endpoint"@.len() == 10);
    assert("."@.len() == 1 && "--path"@.len() == 6 && "--here"@.len() == 6);
    assert("--path"@[2] == 'p' && "--here"@[2] == 'h');
}

/// A flag that takes a value takes the argument behind it, whatever it is, and the rest of the line is
/// read as it would be alone. Behind the last argument there is no value to take.
pub proof fn law_flags_take_values(value: Seq<char>, rest: Seq<Seq<char>>, o: OptionsView)
    ensures
        parsed(seq!["--workspace"@, value] + rest, 0, o) == parsed(
            rest,
            0,
            OptionsView { workspace: Some(value), ..o },
        ),
        parsed(seq!["--model"@, value] + rest, 0, o) == parsed(
            rest,
            0,
            OptionsView { model: Some(value), ..o },
        ),
        parsed(seq!["--endpoint"@, value] + rest, 0, o) == parsed(
            rest,
            0,
            OptionsView { endpoint: Some(value), ..o },
        ),
        parsed(seq!["--path"@, value] + rest, 0, o) == parsed(
            rest,
            0,
            OptionsView { path: Some(value), ..o },
        ),
        parsed(seq!["--workspace"@], 0, o) == Ok::<OptionsView, Seq<char>>(
            OptionsView { workspace: None, ..o },
        ),
        parsed(seq!["--model"@], 0, o) == Ok::<OptionsView, Seq<char>>(
            OptionsView { model: None, ..o },
        ),
        parsed(seq!["--endpoint"@], 0, o) == Ok::<OptionsView, Seq<char>>(
            OptionsView { endpoint: None, ..o },
        ),
        parsed(seq!["--path"@], 0, o) == Ok::<OptionsView, Seq<char>>(
            OptionsView { path: None, ..o },
        ),
{
    lemma_flags_differ();
    let w = seq!["--workspace"@, value] + rest;
    let m = seq!["--model"@, value] + rest;
    let e = seq!["--endpoint"@, value] + rest;
    let p = seq!["--path"@, value] + rest;
    assert(w.skip(2) =~= rest && m.skip(2) =~= rest && e.skip(2) =~= rest && p.skip(2) =~= rest);
    lemma_parsed_skip(w, 2, 0, OptionsView { workspace: Some(value), ..o });
    lemma_parsed_skip(m, 2, 0, OptionsView { model: Some(value), ..o });
    lemma_parsed_skip(e, 2, 0, OptionsView { endpoint: Some(value), ..o });
    lemma_parsed_skip(p, 2, 0, OptionsView { path: Some(value), ..o });
    assert(w[0] == "--workspace"@ && w[1] == value);
    assert(m[0] == "--model"@ && m[1] == value);
    assert(e[0] == "--endpoint"@ && e[1] == value);
    assert(p[0] == "--path"@ && p[1] == value);
    lemma_parsed_end(seq!["--workspace"@], 2, OptionsView { workspace: None, ..o });
    lemma_parsed_end(seq!["--model"@], 2, OptionsView { model: None, ..o });
    lemma_parsed_end(seq!["--endpoint"@], 2, OptionsView { endpoint: None, ..o });
    lemma_parsed_end(seq!["--path"@], 2, OptionsView { path: None, ..o });
    assert(seq!["--workspace"@][0] == "--workspace"@);
    assert(seq!["--model"@][0] == "--model"@);
    assert(seq!["--endpoint"@][0] == "--endpoint"@);
    assert(seq!["--path"@][0] == "--path"@);
}

/// An argument that stands alone: `--here` and `.` ask for the current directory, any other one with
/// two dashes is refused by name, and any other at all is an agent's name. An empty line says nothing.
pub proof fn law_arguments_alone(a: Seq<char>, rest: Seq<Seq<char>>, o: OptionsView)
    ensures
        parsed(Seq::empty(), 0, o) == Ok::<OptionsView, Seq<char>>(o),
        a == "--here"@ || a == "."@ ==> parsed(seq![a] + rest, 0, o) == parsed(
            rest,
            0,
            OptionsView { here: true, ..o },
        ),
        ("--"@).is_prefix_of(a) && a != "--workspace"@ && a != "--model"@ && a != "--endpoint"@ && a
            != "--path"@ && a != "--here"@ ==> parsed(seq![a] + rest, 0, o) == Err::<
            OptionsView,
            Seq<char>,
        >("unknown flag `"@ + a + "`"@),
        !("--"@).is_prefix_of(a) && a != "."@ ==> parsed(seq![a] + rest, 0, o) == parsed(
            rest,
            0,
            OptionsView { names: o.names.push(a), ..o },
        ),
{
    lemma_flags_differ();
    let args = seq![a] + rest;
    assert(args.skip(1) =~= rest);
    assert(args[0] == a);
    lemma_parsed_skip(args, 1, 0, OptionsView { here: true, ..o });
    lemma_parsed_skip(args, 1, 0, OptionsView { names: o.names.push(a), ..o });
    reveal_strlit("--");
    reveal_strlit("--workspace");
    reveal_strlit("--model");
    reveal_strlit("--endpoint");
    reveal_strlit("--path");
    reveal_strlit("--here");
    reveal_strlit(".");
    assert("--workspace"@.subrange(0, 2) =~= "--"@);
    assert("--model"@.subrange(0, 2) =~= "--"@);
    assert("--endpoint"@.subrange(0, 2) =~= "--"@);
    assert("--path"@.subrange(0, 2) =~= "--"@);
    assert("--here"@.subrange(0, 2) =~= "--"@);
    assert("--"@.len() == 2 && "."@.len() == 1);
}

/// The model and the endpoint that a launch is to use in place of all others.
pub open spec fn overrides(l: LaunchView) -> (Option<Seq<char>>, Option<Seq<char>>) {
    match l {
        LaunchView::Dir { with, .. } => (with.model, with.endpoint),
        LaunchView::Here { with } => (with.model, with.endpoint),
        LaunchView::Personal { with } => (with.model, with.endpoint),
        LaunchView::Named { with, .. } => (with.model, with.endpoint),
    }
}

/// Whatever is launched, it gets the model and the endpoint of the options. A directory is the one of
/// the options, and named agents are those of the options, in order, from the workspace of the
/// options. The kind of launch follows from what the options name.
pub proof fn law_options_reach_launch(o: OptionsView)
    ensures
        planned(o) is Ok ==> overrides(planned(o)->Ok_0) == (o.model, o.endpoint),
        o.path is Some && o.names.len() == 0 ==> planned(o) is Ok && planned(o)->Ok_0 is Dir
            && planned(o)->Ok_0->path == o.path->0,
        o.path is None && o.here && o.names.len() == 0 ==> planned(o) is Ok && planned(
            o,
        )->Ok_0 is Here,
        o.path is None && !o.here && o.names.len() == 0 ==> planned(o) is Ok && planned(
            o,
        )->Ok_0 is Personal,
        o.path is None && !o.here && o.names.len() > 0 ==> planned(o) is Ok && planned(
            o,
        )->Ok_0 is Named && planned(o)->Ok_0->names == o.names && planned(o)->Ok_0->workspace
            == o.workspace,
        o.path is Some && o.names.len() > 0 ==> planned(o) == Err::<LaunchView, Seq<char>>(
            "--path takes no agent name (single-agent mode)"@,
        ),
        o.path is None && o.here && o.names.len() > 0 ==> planned(o) == Err::<
            LaunchView,
            Seq<char>,
        >("--here / . takes no agent name (single-agent mode)"@),
{
}

/// A command line of names and then flags launches those agents with the values of the flags, one with
/// a directory the agent in it, and one of flags alone the personal assistant.
pub proof fn law_line_reaches_launch(
    names: Seq<Seq<char>>,
    workspace: Seq<char>,
    model: Seq<char>,
    endpoint: Seq<char>,
    path: Seq<char>,
)
    requires
        names.len() > 0,
        forall|k: int| 0 <= k < names.len() ==> is_name(#[trigger] names[k]),
    ensures
        ({
            let flags = seq!["--workspace"@, workspace] + (seq!["--model"@, model] + seq![
                "--endpoint"@,
                endpoint,
            ]);
            let r = resolved(names + flags);
            let d = resolved(seq!["--path"@, path] + flags);
            let p = resolved(flags);
            &&& r is Ok && r->Ok_0 is Named && r->Ok_0->names == names
            &&& r->Ok_0->workspace == Some(workspace)
            &&& overrides(r->Ok_0) == (Some(model), Some(endpoint))
            &&& d is Ok && d->Ok_0 is Dir && d->Ok_0->path == path
            &&& overrides(d->Ok_0) == (Some(model), Some(endpoint))
            &&& p is Ok && p->Ok_0 is Personal
            &&& overrides(p->Ok_0) == (Some(model), Some(endpoint))
        }),
{
    let last = seq!["--endpoint"@, endpoint];
    let mid = seq!["--model"@, model] + last;
    let flags = seq!["--workspace"@, workspace] + mid;
    lemma_read_flags(workspace, model, endpoint, no_options());
    lemma_read_flags(
        workspace,
        model,
        endpoint,
        OptionsView { path: Some(path), ..no_options() },
    );
    law_flags_take_values(path, flags, no_options());
    lemma_read_names(names, flags, no_options());
    let named = OptionsView { names: no_options().names + names, ..no_options() };
    lemma_read_flags(workspace, model, endpoint, named);
    assert(named.names =~= names);
}

proof fn lemma_read_flags(
    workspace: Seq<char>,
    model: Seq<char>,
    endpoint: Seq<char>,
    o: OptionsView,
)
    ensures
        parsed(
            seq!["--workspace"@, workspace] + (seq!["--model"@, model] + seq![
                "--endpoint"@,
                endpoint,
            ]),
            0,
            o,
        ) == Ok::<OptionsView, Seq<char>>(
            OptionsView {
                workspace: Some(workspace),
                model: Some(model),
                endpoint: Some(endpoint),
                ..o
            },
        ),
{
    let last = seq!["--endpoint"@, endpoint];
    let mid = seq!["--model"@, model] + last;
    let o1 = OptionsView { workspace: Some(workspace), ..o };
    let o2 = OptionsView { model: Some(model), ..o1 };
    let o3 = OptionsView { endpoint: Some(endpoint), ..o2 };
    law_flags_take_values(workspace, mid, o);
    law_flags_take_values(model, last, o1);
    law_flags_take_values(endpoint, Seq::empty(), o2);
    assert(last + Seq::<Seq<char>>::empty() =~= last);
    law_arguments_alone(endpoint, Seq::empty(), o3);
}

proof fn lemma_read_names(names: Seq<Seq<char>>, rest: Seq<Seq<char>>, o: OptionsView)
    requires
        forall|k: int| 0 <= k < names.len() ==> is_name(#[trigger] names[k]),
    ensures
        parsed(names + rest, 0, o) == parsed(
            rest,
            0,
            OptionsView { names: o.names + names, ..o },
        ),
    decreases names.len(),
{
    if names.len() > 0 {
        let more = names.drop_first();
        let next = OptionsView { names: o.names.push(names[0]), ..o };
        assert(is_name(names[0]));
        law_arguments_alone(names[0], more + rest, o);
        assert(names + rest =~= seq![names[0]] + (more + rest));
        assert forall|k: int| 0 <= k < more.len() implies is_name(#[trigger] more[k]) by {
            assert(more[k] == names[k + 1]);
        }
        lemma_read_names(more, rest, next);
        assert(next.names + more =~= o.names + names);
    } else {
        assert(names + rest =~= rest);
        assert(o.names + names =~= o.names);
    }
}

/// An unknown flag behind any names is refused by name, whatever follows it.
pub proof fn law_unknown_flag_is_refused(
    names: Seq<Seq<char>>,
    flag: Seq<char>,
    rest: Seq<Seq<char>>,
)
    requires
        forall|k: int| 0 <= k < names.len() ==> is_name(#[trigger] names[k]),
        ("--"@).is_prefix_of(flag),
        flag != "--workspace"@ && flag != "--model"@ && flag != "--endpoint"@,
        flag != "--path"@ && flag != "--here"@,
    ensures
        resolved(names + (seq![flag] + rest)) == Err::<LaunchView, Seq<char>>(
            "unknown flag `"@ + flag + "`"@,
        ),
{
    lemma_read_names(names, seq![flag] + rest, no_options());
    law_arguments_alone(
        flag,
        rest,
        OptionsView { names: no_options().names + names, ..no_options() },
    );
}

/// Options and a launch mean what their fields hold.
pub proof fn law_launch_means_its_fields(o: Options, l: Launch, k: int)
    ensures
        o@.names.len() == o.names@.len(),
        0 <= k < o.names@.len() ==> o@.names[k] == o.names@[k]@,
        o@.here == o.here,
        is_text(o@.workspace, o.workspace) && is_text(o@.model, o.model),
        is_text(o@.endpoint, o.endpoint) && is_text(o@.path, o.path),
        match l {
            Launch::Dir { path, with } => l@ is Dir && l@->path == path@,
            Launch::Here { with } => l@ is Here,
            Launch::Personal { with } => l@ is Personal,
            Launch::Named { names, workspace, with } => l@ is Named && l@->names.len()
                == names@.len() && is_text(l@->workspace, workspace) && forall|j: int|
                0 <= j < names@.len() ==> #[trigger] l@->names[j] == names@[j]@,
        },
        match l {
            Launch::Dir { with, .. } => is_text(overrides(l@).0, with.model) && is_text(
                overrides(l@).1,
                with.endpoint,
            ),
            Launch::Here { with } => is_text(overrides(l@).0, with.model) && is_text(
                overrides(l@).1,
                with.endpoint,
            ),
            Launch::Personal { with } => is_text(overrides(l@).0, with.model) && is_text(
                overrides(l@).1,
                with.endpoint,
            ),
            Launch::Named { with, .. } => is_text(overrides(l@).0, with.model) && is_text(
                overrides(l@).1,
                with.endpoint,
            ),
        },
{
}

/// Whether `v` is the text of the optional string `s`.
pub open spec fn is_text(v: Option<Seq<char>>, s: Option<String>) -> bool {
    &&& v is Some <==> s is Some
    &&& s is Some ==> v->0 == s->0@
}

} // verus!
